//! The default plugin: Ansible-style output with play and task headers, a
//! status line per host and task, and a recap with per-host counts.
use vstd::prelude::*;
use crate::plugins::actionable::{lemma_sorted_keys, opt_chars, sorted_keys};
use crate::style::{
    append_lines, blank, bold_style, color_style, line_view, lines_view, plain_style, push_line, push_owned,
    push_span, single, text_of, lemma_text_of_add, Color, Span, SpanView, Style,
};
use crate::table::{views, HostTable};
use crate::text::{
    byte_len, dec, dec_string, dec_zero_padded, lines_of, pad_right, push_dec, push_dec_zero_padded,
    push_padded, push_str, repeat_char, repeat_string, split_lines, str_eq, utf8_len,
};
use crate::types::{
    classify, inc, jview, outcome_of, pretty_json, pretty_text, wrap_inc, Elapsed, ExecutionResult, JsonValue, ModuleResult,
    TaskOutcome,
};

verus! {

// ---------------------------------------------------------------------------
// Verbosity
// ---------------------------------------------------------------------------

/// Verbosity levels, as `-v` flags count them.
#[derive(Clone, Copy, Debug, PartialEq, Eq, Structural)]
pub enum Verbosity {
    /// No `-v`.
    Normal,
    /// `-v`.
    Verbose,
    /// `-vv`.
    MoreVerbose,
    /// `-vvv`.
    Debug,
    /// `-vvvv`.
    ConnectionDebug,
    /// `-vvvvv` and beyond.
    WinRMDebug,
}

/// The verbosity for a number of `-v` flags; five or more is the highest.
pub open spec fn verbosity_of(level: u8) -> Verbosity {
    if level == 0 {
        Verbosity::Normal
    } else if level == 1 {
        Verbosity::Verbose
    } else if level == 2 {
        Verbosity::MoreVerbose
    } else if level == 3 {
        Verbosity::Debug
    } else if level == 4 {
        Verbosity::ConnectionDebug
    } else {
        Verbosity::WinRMDebug
    }
}

/// The rank of a verbosity level.
pub open spec fn verbosity_rank(v: Verbosity) -> u8 {
    match v {
        Verbosity::Normal => 0,
        Verbosity::Verbose => 1,
        Verbosity::MoreVerbose => 2,
        Verbosity::Debug => 3,
        Verbosity::ConnectionDebug => 4,
        Verbosity::WinRMDebug => 5,
    }
}

impl Verbosity {
    /// The verbosity for a number of `-v` flags (clamped at the highest).
    pub fn from(level: u8) -> (v: Self)
        ensures
            v == verbosity_of(level),
    {
        if level == 0 {
            Verbosity::Normal
        } else if level == 1 {
            Verbosity::Verbose
        } else if level == 2 {
            Verbosity::MoreVerbose
        } else if level == 3 {
            Verbosity::Debug
        } else if level == 4 {
            Verbosity::ConnectionDebug
        } else {
            Verbosity::WinRMDebug
        }
    }

    /// The rank of the level (0 to 5).
    pub fn rank(&self) -> (r: u8)
        ensures
            r == verbosity_rank(*self),
    {
        match self {
            Verbosity::Normal => 0,
            Verbosity::Verbose => 1,
            Verbosity::MoreVerbose => 2,
            Verbosity::Debug => 3,
            Verbosity::ConnectionDebug => 4,
            Verbosity::WinRMDebug => 5,
        }
    }
}

// ---------------------------------------------------------------------------
// Host statistics
// ---------------------------------------------------------------------------

/// Task counts for one host.
#[derive(Clone, Copy, Debug, PartialEq, Eq, Structural)]
pub struct HostStats {
    pub ok: u32,
    pub changed: u32,
    pub failed: u32,
    pub skipped: u32,
    pub unreachable: u32,
    pub rescued: u32,
    pub ignored: u32,
}

/// A host with nothing counted.
pub open spec fn zero_stats() -> HostStats {
    HostStats { ok: 0, changed: 0, failed: 0, skipped: 0, unreachable: 0, rescued: 0, ignored: 0 }
}

/// The sum of all counts.
pub open spec fn stats_total(s: HostStats) -> int {
    s.ok + s.changed + s.failed + s.skipped + s.unreachable + s.rescued + s.ignored
}

impl Default for HostStats {
    fn default() -> (s: Self)
        ensures
            s == zero_stats(),
    {
        HostStats { ok: 0, changed: 0, failed: 0, skipped: 0, unreachable: 0, rescued: 0, ignored: 0 }
    }
}

impl HostStats {
    /// A host with nothing counted.
    pub fn new() -> (s: Self)
        ensures
            s == zero_stats(),
    {
        Self::default()
    }

    /// Whether something failed or was unreachable.
    pub fn has_failures(&self) -> (b: bool)
        ensures
            b == (self.failed > 0 || self.unreachable > 0),
    {
        self.failed > 0 || self.unreachable > 0
    }

    /// Whether something changed.
    pub fn has_changes(&self) -> (b: bool)
        ensures
            b == (self.changed > 0),
    {
        self.changed > 0
    }

    /// The sum of all counts.
    pub fn total(&self) -> (t: u32)
        requires
            stats_total(*self) <= u32::MAX,
        ensures
            t == stats_total(*self),
    {
        self.ok + self.changed + self.failed + self.skipped + self.unreachable + self.rescued + self.ignored
    }
}

/// The counts of a host after one more task with the given outcome.
pub open spec fn count_outcome(s: HostStats, o: TaskOutcome) -> HostStats {
    match o {
        TaskOutcome::Skipped => HostStats { skipped: wrap_inc(s.skipped), ..s },
        TaskOutcome::Failed => HostStats { failed: wrap_inc(s.failed), ..s },
        TaskOutcome::Changed => HostStats { changed: wrap_inc(s.changed), ..s },
        TaskOutcome::Unchanged => HostStats { ok: wrap_inc(s.ok), ..s },
    }
}

/// A finished task counts once, under its own kind: a skipped task as
/// skipped, else a task that did not succeed as failed, else a changed one
/// as changed, else as ok; the other counts stay as they were.
pub proof fn lemma_count_result(s: HostStats, r: crate::types::ModuleResult)
    requires
        s.ok < u32::MAX,
        s.changed < u32::MAX,
        s.failed < u32::MAX,
        s.skipped < u32::MAX,
    ensures
        count_outcome(s, crate::types::outcome_of(r)).failed == s.failed + if !r.skipped && !r.success { 1int } else { 0int },
        count_outcome(s, crate::types::outcome_of(r)).skipped == s.skipped + if r.skipped { 1int } else { 0int },
        count_outcome(s, crate::types::outcome_of(r)).changed == s.changed + if !r.skipped && r.success && r.changed { 1int } else { 0int },
        count_outcome(s, crate::types::outcome_of(r)).ok == s.ok + if !r.skipped && r.success && !r.changed { 1int } else { 0int },
        count_outcome(s, crate::types::outcome_of(r)).unreachable == s.unreachable,
        count_outcome(s, crate::types::outcome_of(r)).rescued == s.rescued,
        count_outcome(s, crate::types::outcome_of(r)).ignored == s.ignored,
{
}

/// The counts of `host`, zero if it has none yet.
pub open spec fn stats_of(m: Map<Seq<char>, HostStats>, host: Seq<char>) -> HostStats {
    if m.contains_key(host) {
        m[host]
    } else {
        zero_stats()
    }
}

// ---------------------------------------------------------------------------
// Configuration
// ---------------------------------------------------------------------------

/// Configuration for the default callback.
#[derive(Clone, Copy, Debug, PartialEq, Eq, Structural)]
pub struct DefaultCallbackConfig {
    /// Verbosity level (0-5).
    pub verbosity: u8,
    /// Disable colors.
    pub no_color: bool,
    /// Show diffs for changed files.
    pub show_diff: bool,
    /// Show task durations.
    pub show_duration: bool,
    /// Show skipped tasks.
    pub show_skipped: bool,
    /// Show ok (unchanged) tasks.
    pub show_ok: bool,
}

/// The default configuration.
pub open spec fn default_config() -> DefaultCallbackConfig {
    DefaultCallbackConfig {
        verbosity: 0,
        no_color: false,
        show_diff: false,
        show_duration: true,
        show_skipped: true,
        show_ok: true,
    }
}

impl Default for DefaultCallbackConfig {
    fn default() -> (c: Self)
        ensures
            c == default_config(),
    {
        DefaultCallbackConfig {
            verbosity: 0,
            no_color: false,
            show_diff: false,
            show_duration: true,
            show_skipped: true,
            show_ok: true,
        }
    }
}

/// Builds a default callback.
#[derive(Clone, Copy, Debug)]
pub struct DefaultCallbackBuilder {
    /// The configuration being built.
    pub config: DefaultCallbackConfig,
}

impl DefaultCallbackBuilder {
    /// A builder with the default configuration.
    pub fn new() -> (b: Self)
        ensures
            b.config == default_config(),
    {
        DefaultCallbackBuilder { config: DefaultCallbackConfig::default() }
    }

    /// Sets the verbosity.
    pub fn verbosity(self, level: u8) -> (b: Self)
        ensures
            b.config == (DefaultCallbackConfig { verbosity: level, ..self.config }),
    {
        DefaultCallbackBuilder { config: DefaultCallbackConfig { verbosity: level, ..self.config } }
    }

    /// Turns colors off (or on).
    pub fn no_color(self, no_color: bool) -> (b: Self)
        ensures
            b.config == (DefaultCallbackConfig { no_color, ..self.config }),
    {
        DefaultCallbackBuilder { config: DefaultCallbackConfig { no_color, ..self.config } }
    }

    /// Shows diffs.
    pub fn show_diff(self, show_diff: bool) -> (b: Self)
        ensures
            b.config == (DefaultCallbackConfig { show_diff, ..self.config }),
    {
        DefaultCallbackBuilder { config: DefaultCallbackConfig { show_diff, ..self.config } }
    }

    /// Shows durations.
    pub fn show_duration(self, show: bool) -> (b: Self)
        ensures
            b.config == (DefaultCallbackConfig { show_duration: show, ..self.config }),
    {
        DefaultCallbackBuilder { config: DefaultCallbackConfig { show_duration: show, ..self.config } }
    }

    /// Shows skipped tasks.
    pub fn show_skipped(self, show: bool) -> (b: Self)
        ensures
            b.config == (DefaultCallbackConfig { show_skipped: show, ..self.config }),
    {
        DefaultCallbackBuilder { config: DefaultCallbackConfig { show_skipped: show, ..self.config } }
    }

    /// Shows ok tasks.
    pub fn show_ok(self, show: bool) -> (b: Self)
        ensures
            b.config == (DefaultCallbackConfig { show_ok: show, ..self.config }),
    {
        DefaultCallbackBuilder { config: DefaultCallbackConfig { show_ok: show, ..self.config } }
    }

    /// The callback; `no_color_env` says whether `NO_COLOR` is set.
    pub fn build(self, no_color_env: bool) -> (c: DefaultCallback)
        ensures
            c.spec_config() == self.config,
            c.spec_use_color() == (!self.config.no_color && !no_color_env),
            c.spec_verbosity() == self.config.verbosity,
            c.wf(),
    {
        DefaultCallback::with_config(self.config, no_color_env)
    }
}

// ---------------------------------------------------------------------------
// Output lines
// ---------------------------------------------------------------------------

/// The width of headers.
pub open spec fn output_width() -> nat {
    80
}

/// A header line: `PREFIX [name]` then stars up to the output width.
pub open spec fn header_line(color: bool, prefix: Seq<char>, name: Seq<char>) -> Seq<SpanView> {
    let header = prefix + " ["@ + name + "]"@;
    let n = if (utf8_len(header) as usize) + 1 < 80 { 80 - ((utf8_len(header) as usize) + 1) } else { 0 };
    if color {
        seq![(header, bold_style(Color::BrightWhite)), (" "@, plain_style()), (repeat_char('*', n as nat), color_style(Color::BrightBlack))]
    } else {
        seq![(header + " "@ + repeat_char('*', n as nat), plain_style())]
    }
}

/// The recap header: `PLAY RECAP` then stars up to the output width.
pub open spec fn recap_header_line(color: bool) -> Seq<SpanView> {
    if color {
        seq![("PLAY RECAP"@, bold_style(Color::BrightWhite)), (" "@, plain_style()), (repeat_char('*', 69), color_style(Color::BrightBlack))]
    } else {
        seq![("PLAY RECAP "@ + repeat_char('*', 69), plain_style())]
    }
}

/// The status word of a result and its color.
pub open spec fn status_word(r: ModuleResult) -> (Seq<char>, Color) {
    if r.skipped {
        ("skipping"@, Color::Cyan)
    } else if !r.success {
        ("fatal"@, Color::Red)
    } else if r.changed {
        ("changed"@, Color::Yellow)
    } else {
        ("ok"@, Color::Green)
    }
}

/// A skipped task is shown as `skipping`, else a task that did not
/// succeed as `fatal`, else a changed one as `changed`, else as `ok`.
pub proof fn lemma_status_word(r: crate::types::ModuleResult)
    ensures
        r.skipped ==> status_word(r).0 == "skipping"@,
        !r.skipped && !r.success ==> status_word(r).0 == "fatal"@,
        !r.skipped && r.success && r.changed ==> status_word(r).0 == "changed"@,
        !r.skipped && r.success && !r.changed ==> status_word(r).0 == "ok"@,
{
}

/// `label=value`: with colors, a nonzero value in `c` (the value bold) and
/// a zero value dimmed.
pub open spec fn stat_spans(color: bool, label: Seq<char>, value: u32, c: Color) -> Seq<SpanView> {
    if color && value > 0 {
        seq![(label, color_style(c)), ("="@, plain_style()), (dec(value as nat), bold_style(c))]
    } else if color {
        seq![(label + "="@ + dec(value as nat), Style { color: Color::Default, bold: false, dimmed: true, italic: false })]
    } else {
        seq![(label + "="@ + dec(value as nat), plain_style())]
    }
}

/// The recap line of one host.
pub open spec fn recap_line(color: bool, host: Seq<char>, s: HostStats) -> Seq<SpanView> {
    let host_style = if !color {
        plain_style()
    } else if s.failed > 0 || s.unreachable > 0 {
        bold_style(Color::Red)
    } else if s.changed > 0 {
        color_style(Color::Yellow)
    } else {
        color_style(Color::Green)
    };
    let sep = seq![("    "@, plain_style())];
    seq![(pad_right(host, 30), host_style), (" : "@, plain_style())] + stat_spans(color, "ok"@, s.ok, Color::Green) + sep
        + stat_spans(color, "changed"@, s.changed, Color::Yellow) + sep + stat_spans(
        color,
        "unreachable"@,
        s.unreachable,
        Color::Red,
    ) + sep + stat_spans(color, "failed"@, s.failed, Color::Red) + sep + stat_spans(
        color,
        "skipped"@,
        s.skipped,
        Color::Cyan,
    ) + sep + stat_spans(color, "rescued"@, s.rescued, Color::Magenta) + sep + stat_spans(
        color,
        "ignored"@,
        s.ignored,
        Color::Blue,
    )
}

/// The text of a count: `label=value`, whatever the coloring.
pub proof fn lemma_stat_spans_text(color: bool, label: Seq<char>, value: u32, c: Color)
    ensures
        text_of(stat_spans(color, label, value, c)) == label + "="@ + dec(value as nat),
{
    let t = stat_spans(color, label, value, c);
    if color && value > 0 {
        lemma_text_of_two(t.drop_last());
        assert(text_of(t) =~= label + "="@ + dec(value as nat));
    } else {
        lemma_text_of_one(t);
    }
}

/// Whatever the coloring, a host's recap line reads `host : ok=N
/// changed=N    unreachable=N    failed=N    skipped=N    rescued=N
/// ignored=N`, the host name padded to 30 characters and each label
/// followed by the host's own count of that kind.
#[verifier::spinoff_prover]
#[verifier::rlimit(50)]
pub proof fn lemma_recap_line_text(color: bool, host: Seq<char>, s: HostStats)
    ensures
        text_of(recap_line(color, host, s)) == pad_right(host, 30) + " : "@ + "ok"@ + "="@ + dec(s.ok as nat) + "    "@
            + "changed"@ + "="@ + dec(s.changed as nat) + "    "@
            + "unreachable"@ + "="@ + dec(s.unreachable as nat) + "    "@
            + "failed"@ + "="@ + dec(s.failed as nat) + "    "@
            + "skipped"@ + "="@ + dec(s.skipped as nat) + "    "@
            + "rescued"@ + "="@ + dec(s.rescued as nat) + "    "@
            + "ignored"@ + "="@ + dec(s.ignored as nat),
{
    let host_style = if !color {
        plain_style()
    } else if s.failed > 0 || s.unreachable > 0 {
        bold_style(Color::Red)
    } else if s.changed > 0 {
        color_style(Color::Yellow)
    } else {
        color_style(Color::Green)
    };
    let sep = seq![("    "@, plain_style())];
    let h = seq![(pad_right(host, 30), host_style), (" : "@, plain_style())];
    lemma_text_of_two(h);
    lemma_text_of_one(sep);
    let p0 = stat_spans(color, "ok"@, s.ok, Color::Green);
    lemma_stat_spans_text(color, "ok"@, s.ok, Color::Green);
    let a1 = h + p0;
    lemma_text_of_add(h, p0);
    assert(text_of(a1) =~= pad_right(host, 30) + " : "@ + "ok"@ + "="@ + dec(s.ok as nat));
    let a2 = a1 + sep;
    lemma_text_of_add(a1, sep);
    assert(text_of(a2) =~= pad_right(host, 30) + " : "@ + "ok"@ + "="@ + dec(s.ok as nat) + "    "@);
    let p1 = stat_spans(color, "changed"@, s.changed, Color::Yellow);
    lemma_stat_spans_text(color, "changed"@, s.changed, Color::Yellow);
    let a3 = a2 + p1;
    lemma_text_of_add(a2, p1);
    assert(text_of(a3) =~= pad_right(host, 30) + " : "@ + "ok"@ + "="@ + dec(s.ok as nat) + "    "@ + "changed"@ + "="@ + dec(s.changed as nat));
    let a4 = a3 + sep;
    lemma_text_of_add(a3, sep);
    assert(text_of(a4) =~= pad_right(host, 30) + " : "@ + "ok"@ + "="@ + dec(s.ok as nat) + "    "@ + "changed"@ + "="@ + dec(s.changed as nat) + "    "@);
    let p2 = stat_spans(color, "unreachable"@, s.unreachable, Color::Red);
    lemma_stat_spans_text(color, "unreachable"@, s.unreachable, Color::Red);
    let a5 = a4 + p2;
    lemma_text_of_add(a4, p2);
    assert(text_of(a5) =~= pad_right(host, 30) + " : "@ + "ok"@ + "="@ + dec(s.ok as nat) + "    "@ + "changed"@ + "="@ + dec(s.changed as nat) + "    "@ + "unreachable"@ + "="@ + dec(s.unreachable as nat));
    let a6 = a5 + sep;
    lemma_text_of_add(a5, sep);
    assert(text_of(a6) =~= pad_right(host, 30) + " : "@ + "ok"@ + "="@ + dec(s.ok as nat) + "    "@ + "changed"@ + "="@ + dec(s.changed as nat) + "    "@ + "unreachable"@ + "="@ + dec(s.unreachable as nat) + "    "@);
    let p3 = stat_spans(color, "failed"@, s.failed, Color::Red);
    lemma_stat_spans_text(color, "failed"@, s.failed, Color::Red);
    let a7 = a6 + p3;
    lemma_text_of_add(a6, p3);
    assert(text_of(a7) =~= pad_right(host, 30) + " : "@ + "ok"@ + "="@ + dec(s.ok as nat) + "    "@ + "changed"@ + "="@ + dec(s.changed as nat) + "    "@ + "unreachable"@ + "="@ + dec(s.unreachable as nat) + "    "@ + "failed"@ + "="@ + dec(s.failed as nat));
    let a8 = a7 + sep;
    lemma_text_of_add(a7, sep);
    assert(text_of(a8) =~= pad_right(host, 30) + " : "@ + "ok"@ + "="@ + dec(s.ok as nat) + "    "@ + "changed"@ + "="@ + dec(s.changed as nat) + "    "@ + "unreachable"@ + "="@ + dec(s.unreachable as nat) + "    "@ + "failed"@ + "="@ + dec(s.failed as nat) + "    "@);
    let p4 = stat_spans(color, "skipped"@, s.skipped, Color::Cyan);
    lemma_stat_spans_text(color, "skipped"@, s.skipped, Color::Cyan);
    let a9 = a8 + p4;
    lemma_text_of_add(a8, p4);
    assert(text_of(a9) =~= pad_right(host, 30) + " : "@ + "ok"@ + "="@ + dec(s.ok as nat) + "    "@ + "changed"@ + "="@ + dec(s.changed as nat) + "    "@ + "unreachable"@ + "="@ + dec(s.unreachable as nat) + "    "@ + "failed"@ + "="@ + dec(s.failed as nat) + "    "@ + "skipped"@ + "="@ + dec(s.skipped as nat));
    let a10 = a9 + sep;
    lemma_text_of_add(a9, sep);
    assert(text_of(a10) =~= pad_right(host, 30) + " : "@ + "ok"@ + "="@ + dec(s.ok as nat) + "    "@ + "changed"@ + "="@ + dec(s.changed as nat) + "    "@ + "unreachable"@ + "="@ + dec(s.unreachable as nat) + "    "@ + "failed"@ + "="@ + dec(s.failed as nat) + "    "@ + "skipped"@ + "="@ + dec(s.skipped as nat) + "    "@);
    let p5 = stat_spans(color, "rescued"@, s.rescued, Color::Magenta);
    lemma_stat_spans_text(color, "rescued"@, s.rescued, Color::Magenta);
    let a11 = a10 + p5;
    lemma_text_of_add(a10, p5);
    assert(text_of(a11) =~= pad_right(host, 30) + " : "@ + "ok"@ + "="@ + dec(s.ok as nat) + "    "@ + "changed"@ + "="@ + dec(s.changed as nat) + "    "@ + "unreachable"@ + "="@ + dec(s.unreachable as nat) + "    "@ + "failed"@ + "="@ + dec(s.failed as nat) + "    "@ + "skipped"@ + "="@ + dec(s.skipped as nat) + "    "@ + "rescued"@ + "="@ + dec(s.rescued as nat));
    let a12 = a11 + sep;
    lemma_text_of_add(a11, sep);
    assert(text_of(a12) =~= pad_right(host, 30) + " : "@ + "ok"@ + "="@ + dec(s.ok as nat) + "    "@ + "changed"@ + "="@ + dec(s.changed as nat) + "    "@ + "unreachable"@ + "="@ + dec(s.unreachable as nat) + "    "@ + "failed"@ + "="@ + dec(s.failed as nat) + "    "@ + "skipped"@ + "="@ + dec(s.skipped as nat) + "    "@ + "rescued"@ + "="@ + dec(s.rescued as nat) + "    "@);
    let p6 = stat_spans(color, "ignored"@, s.ignored, Color::Blue);
    lemma_stat_spans_text(color, "ignored"@, s.ignored, Color::Blue);
    let a13 = a12 + p6;
    lemma_text_of_add(a12, p6);
    assert(text_of(a13) =~= pad_right(host, 30) + " : "@ + "ok"@ + "="@ + dec(s.ok as nat) + "    "@ + "changed"@ + "="@ + dec(s.changed as nat) + "    "@ + "unreachable"@ + "="@ + dec(s.unreachable as nat) + "    "@ + "failed"@ + "="@ + dec(s.failed as nat) + "    "@ + "skipped"@ + "="@ + dec(s.skipped as nat) + "    "@ + "rescued"@ + "="@ + dec(s.rescued as nat) + "    "@ + "ignored"@ + "="@ + dec(s.ignored as nat));
    assert(recap_line(color, host, s) == a13);
}

/// The text of a one-span line is its span's text.
pub proof fn lemma_text_of_one(l: Seq<SpanView>)
    requires
        l.len() == 1,
    ensures
        text_of(l) == l[0].0,
{
    assert(l.drop_last() =~= Seq::<SpanView>::empty());
    assert(text_of(l.drop_last()) == Seq::<char>::empty());
    assert(l.last() == l[0]);
    assert(text_of(l) =~= l[0].0);
}

/// The text of a two-span line is its spans' texts joined.
pub proof fn lemma_text_of_two(l: Seq<SpanView>)
    requires
        l.len() == 2,
    ensures
        text_of(l) == l[0].0 + l[1].0,
{
    lemma_text_of_one(l.drop_last());
    assert(text_of(l) =~= l[0].0 + l[1].0);
}

/// The recap lines of hosts `hs` in order.
pub open spec fn recap_lines(color: bool, hs: Seq<Seq<char>>, m: Map<Seq<char>, HostStats>) -> Seq<Seq<SpanView>>
    decreases hs.len(),
{
    if hs.len() == 0 {
        Seq::empty()
    } else {
        recap_lines(color, hs.drop_last(), m).push(recap_line(color, hs.last(), m[hs.last()]))
    }
}

/// A duration as the default plugin shows it: hours, minutes and seconds;
/// minutes and seconds; seconds with hundredths; or milliseconds.
pub open spec fn duration_text(secs: nat, millis: nat) -> Seq<char> {
    if secs >= 3600 {
        dec(secs / 3600) + "h "@ + dec((secs % 3600) / 60) + "m "@ + dec(secs % 60) + "s"@
    } else if secs >= 60 {
        dec(secs / 60) + "m "@ + dec(secs % 60) + "s"@
    } else if secs > 0 {
        dec(secs) + "."@ + dec_zero_padded(millis / 10, 2) + "s"@
    } else {
        dec(millis) + "ms"@
    }
}

/// Whether a result is a debug task's: its data is an object with exactly
/// one entry.
pub open spec fn is_debug_data(r: ModuleResult) -> bool {
    match r.data {
        Some(JsonValue::Object(entries)) => entries@.len() == 1,
        _ => false,
    }
}

/// The data lines of a result, each indented and styled.
pub open spec fn data_lines(ls: Seq<Seq<char>>, style: Style) -> Seq<Seq<SpanView>> {
    Seq::new(ls.len(), |i: int| seq![("    "@, plain_style()), (ls[i], style)])
}

/// A two-part detail line such as `    msg: ...`.
pub open spec fn detail_line(color: bool, label: Seq<char>, value: Seq<char>, value_style: Style) -> Seq<SpanView> {
    if color {
        seq![("    "@, plain_style()), (label, color_style(Color::BrightBlack)), (": "@, plain_style()), (value, value_style)]
    } else {
        seq![("    "@ + label + ": "@ + value, plain_style())]
    }
}

/// The status line of a result: `status: [host]`, with what follows it.
pub open spec fn status_line(color: bool, verbosity: u8, r: ModuleResult, host: Seq<char>) -> Seq<SpanView> {
    let (word, c) = status_word(r);
    let host_style = if !color {
        plain_style()
    } else if !r.success {
        bold_style(Color::Red)
    } else {
        bold_style(Color::BrightWhite)
    };
    let head = seq![
        (word, if color { color_style(c) } else { plain_style() }),
        (": ["@, plain_style()),
        (host, host_style),
        ("]"@, plain_style()),
    ];
    let msg = r.message@;
    if r.skipped || (r.success && !r.changed) {
        if is_debug_data(r) && msg.len() > 0 {
            head + seq![(" => "@, plain_style()), (msg, if color { color_style(Color::BrightBlack) } else { plain_style() })]
        } else {
            head
        }
    } else if r.changed {
        if verbosity >= 1 && msg.len() > 0 {
            head + seq![(" => "@, plain_style()), (msg, if color { color_style(Color::BrightBlack) } else { plain_style() })]
        } else {
            head
        }
    } else {
        if msg.len() > 0 {
            head + seq![(" => "@, plain_style()), ("{"@ + msg + "}"@, if color { color_style(Color::Red) } else { plain_style() })]
        } else {
            head
        }
    }
}

/// The data lines a failed task shows.
pub open spec fn failure_data_lines(color: bool, r: ModuleResult, data: Option<Seq<char>>) -> Seq<Seq<SpanView>> {
    if !r.skipped && !r.success {
        match data {
            Some(d) => data_lines(lines_of(d), if color { color_style(Color::Red) } else { plain_style() }),
            None => Seq::empty(),
        }
    } else {
        Seq::empty()
    }
}

/// The details shown at `-v` and above: the message, at `-vv` the data,
/// and the duration if configured.
pub open spec fn verbose_lines(
    config: DefaultCallbackConfig,
    color: bool,
    verbosity: u8,
    result: &ExecutionResult,
    data: Option<Seq<char>>,
) -> Seq<Seq<SpanView>> {
    let r = result.result;
    if verbosity >= 1 {
        let msg = if r.message@.len() > 0 {
            seq![detail_line(color, "msg"@, r.message@, plain_style())]
        } else {
            Seq::empty()
        };
        let more = if verbosity >= 2 {
            match data {
                Some(d) => data_lines(lines_of(d), if color { color_style(Color::BrightBlack) } else { plain_style() }),
                None => Seq::empty(),
            }
        } else {
            Seq::empty()
        };
        let dur = if config.show_duration {
            seq![
                detail_line(
                    color,
                    "duration"@,
                    duration_text(result.duration.secs_of(), result.duration.subsec_millis_of()),
                    if color { color_style(Color::BrightBlack) } else { plain_style() },
                ),
            ]
        } else {
            Seq::empty()
        };
        msg + more + dur
    } else {
        Seq::empty()
    }
}

/// Everything a finished task shows, given the pretty-printed data of the

/// The result data of a task pretty-printed, if it has any.
pub open spec fn data_text(result: ExecutionResult) -> Option<Seq<char>> {
    match result.result.data {
        Some(d) => Some(pretty_text(jview(d))),
        None => None,
    }
}

/// result (if it has data).
pub open spec fn task_lines(
    config: DefaultCallbackConfig,
    color: bool,
    verbosity: u8,
    result: &ExecutionResult,
    data: Option<Seq<char>>,
) -> Seq<Seq<SpanView>> {
    let r = result.result;
    if (r.skipped && !config.show_skipped) || (r.success && !r.changed && !config.show_ok) {
        Seq::empty()
    } else {
        seq![status_line(color, verbosity, r, result.host@)] + failure_data_lines(color, r, data) + verbose_lines(
            config,
            color,
            verbosity,
            result,
            data,
        )
    }
}

/// Formats a duration as the default plugin shows it.
pub fn format_duration(d: &Elapsed) -> (s: String)
    requires
        d.wf(),
    ensures
        s@ == duration_text(d.secs_of(), d.subsec_millis_of()),
{
    let secs = d.as_secs();
    let millis = d.subsec_millis();
    let mut s = String::new();
    if secs >= 3600 {
        push_dec(&mut s, secs / 3600);
        push_str(&mut s, "h ");
        push_dec(&mut s, (secs % 3600) / 60);
        push_str(&mut s, "m ");
        push_dec(&mut s, secs % 60);
        push_str(&mut s, "s");
    } else if secs >= 60 {
        push_dec(&mut s, secs / 60);
        push_str(&mut s, "m ");
        push_dec(&mut s, secs % 60);
        push_str(&mut s, "s");
    } else if secs > 0 {
        push_dec(&mut s, secs);
        push_str(&mut s, ".");
        push_dec_zero_padded(&mut s, (millis / 10) as u64, 2);
        push_str(&mut s, "s");
    } else {
        push_dec(&mut s, millis as u64);
        push_str(&mut s, "ms");
    }
    proof {
        assert(s@ =~= duration_text(d.secs_of(), d.subsec_millis_of()));
    }
    s
}

/// A header line for `prefix [name]`.
pub fn header(color: bool, prefix: &str, name: &str) -> (l: Vec<Span>)
    ensures
        line_view(l@) == header_line(color, prefix@, name@),
{
    let mut h = String::new();
    push_str(&mut h, prefix);
    push_str(&mut h, " [");
    push_str(&mut h, name);
    push_str(&mut h, "]");
    let len = byte_len(h.as_str());
    let n: usize = if len < 79 { 80 - (len + 1) } else { 0 };
    let stars = repeat_string('*', n);
    let mut l = Vec::new();
    if color {
        push_owned(&mut l, h, Style::bold(Color::BrightWhite));
        push_span(&mut l, " ", Style::plain());
        push_owned(&mut l, stars, Style::fg(Color::BrightBlack));
    } else {
        push_str(&mut h, " ");
        push_str(&mut h, stars.as_str());
        push_owned(&mut l, h, Style::plain());
    }
    proof {
        assert(line_view(l@) =~= header_line(color, prefix@, name@));
    }
    l
}

fn stat(l: &mut Vec<Span>, color: bool, label: &str, value: u32, c: Color)
    ensures
        line_view(final(l)@) == line_view(old(l)@) + stat_spans(color, label@, value, c),
{
    let d = dec_string(value as u64);
    if color && value > 0 {
        push_span(l, label, Style::fg(c));
        push_span(l, "=", Style::plain());
        push_owned(l, d, Style::bold(c));
    } else {
        let mut t = String::new();
        push_str(&mut t, label);
        push_str(&mut t, "=");
        push_str(&mut t, d.as_str());
        if color {
            push_owned(l, t, Style { color: Color::Default, bold: false, dimmed: true, italic: false });
        } else {
            push_owned(l, t, Style::plain());
        }
    }
    proof {
        assert(line_view(l@) =~= line_view(old(l)@) + stat_spans(color, label@, value, c));
    }
}

/// Appends the indented lines of `text`.
fn push_data_lines(out: &mut Vec<Vec<Span>>, text: &str, style: Style)
    ensures
        lines_view(final(out)@) == lines_view(old(out)@) + data_lines(lines_of(text@), style),
{
    let ls = split_lines(text);
    let ghost start = lines_view(out@);
    let mut i: usize = 0;
    while i < ls.len()
        invariant
            i <= ls.len(),
            views(ls@) == lines_of(text@),
            lines_view(out@) == start + data_lines(views(ls@).subrange(0, i as int), style),
        decreases ls.len() - i,
    {
        let mut l = Vec::new();
        push_span(&mut l, "    ", Style::plain());
        push_span(&mut l, ls[i].as_str(), style);
        push_line(out, l);
        proof {
            assert(data_lines(views(ls@).subrange(0, i + 1), style) =~= data_lines(
                views(ls@).subrange(0, i as int),
                style,
            ).push(seq![("    "@, plain_style()), (ls@[i as int]@, style)]));
            assert(line_view(l@) =~= seq![("    "@, plain_style()), (ls@[i as int]@, style)]);
        }
        i = i + 1;
    }
    proof {
        assert(views(ls@).subrange(0, i as int) =~= views(ls@));
    }
}

fn detail(color: bool, label: &str, value: &str, value_style: Style) -> (l: Vec<Span>)
    ensures
        line_view(l@) == detail_line(color, label@, value@, value_style),
{
    let mut l = Vec::new();
    if color {
        push_span(&mut l, "    ", Style::plain());
        push_span(&mut l, label, Style::fg(Color::BrightBlack));
        push_span(&mut l, ": ", Style::plain());
        push_span(&mut l, value, value_style);
    } else {
        let mut t = String::new();
        push_str(&mut t, "    ");
        push_str(&mut t, label);
        push_str(&mut t, ": ");
        push_str(&mut t, value);
        push_owned(&mut l, t, Style::plain());
    }
    proof {
        assert(line_view(l@) =~= detail_line(color, label@, value@, value_style));
    }
    l
}

// ---------------------------------------------------------------------------
// The callback
// ---------------------------------------------------------------------------

/// Ansible-style callback.
#[derive(Debug)]
pub struct DefaultCallback {
    config: DefaultCallbackConfig,
    use_color: bool,
    verbosity: u8,
    started: bool,
    playbook_name: Option<String>,
    current_play: Option<String>,
    current_task: Option<String>,
    host_stats: HostTable<HostStats>,
    task_header_printed: bool,
}

impl DefaultCallback {
    /// The tables are well formed.
    pub closed spec fn wf(&self) -> bool {
        self.host_stats.wf()
    }

    /// The configuration.
    pub closed spec fn spec_config(&self) -> DefaultCallbackConfig {
        self.config
    }

    /// Whether colors are used.
    pub closed spec fn spec_use_color(&self) -> bool {
        self.use_color
    }

    /// The verbosity level.
    pub closed spec fn spec_verbosity(&self) -> u8 {
        self.verbosity
    }

    /// The counts per host.
    pub closed spec fn stats(&self) -> Map<Seq<char>, HostStats> {
        self.host_stats@
    }

    /// Whether a playbook started.
    pub closed spec fn spec_started(&self) -> bool {
        self.started
    }

    /// The playbook's name.
    pub closed spec fn spec_playbook_name(&self) -> Option<Seq<char>> {
        opt_chars(self.playbook_name)
    }

    /// The current play.
    pub closed spec fn spec_current_play(&self) -> Option<Seq<char>> {
        opt_chars(self.current_play)
    }

    /// The current task.
    pub closed spec fn spec_current_task(&self) -> Option<Seq<char>> {
        opt_chars(self.current_task)
    }

    /// Whether the current task's header is out.
    pub closed spec fn spec_header_printed(&self) -> bool {
        self.task_header_printed
    }

    /// A default callback with the default configuration; `no_color_env`
    /// says whether `NO_COLOR` is set.
    pub fn new(no_color_env: bool) -> (c: Self)
        ensures
            c.wf(),
            c.spec_config() == default_config(),
            c.spec_use_color() == !no_color_env,
            c.spec_verbosity() == 0,
            c.stats() == Map::<Seq<char>, HostStats>::empty(),
            !c.spec_started(),
            c.spec_playbook_name() is None,
    {
        Self::with_config(DefaultCallbackConfig::default(), no_color_env)
    }

    /// A default callback with the given configuration; colors are on unless
    /// the configuration or `NO_COLOR` turns them off.
    pub fn with_config(config: DefaultCallbackConfig, no_color_env: bool) -> (c: Self)
        ensures
            c.wf(),
            c.spec_config() == config,
            c.spec_use_color() == (!config.no_color && !no_color_env),
            c.spec_verbosity() == config.verbosity,
            c.stats() == Map::<Seq<char>, HostStats>::empty(),
            !c.spec_started(),
            c.spec_playbook_name() is None,
            c.spec_current_play() is None,
            c.spec_current_task() is None,
    {
        DefaultCallback {
            config,
            use_color: !config.no_color && !no_color_env,
            verbosity: config.verbosity,
            started: false,
            playbook_name: None,
            current_play: None,
            current_task: None,
            host_stats: HostTable::new(),
            task_header_printed: false,
        }
    }

    /// A builder.
    pub fn builder() -> (b: DefaultCallbackBuilder)
        ensures
            b.config == default_config(),
    {
        DefaultCallbackBuilder::new()
    }

    /// Sets the verbosity level.
    pub fn with_verbosity(self, level: u8) -> (c: Self)
        ensures
            c.spec_verbosity() == level,
            c.spec_use_color() == self.spec_use_color(),
            c.spec_config() == self.spec_config(),
            c.stats() == self.stats(),
            c.wf() == self.wf(),
    {
        DefaultCallback { verbosity: level, ..self }
    }

    /// Turns colors off (or on, unless `NO_COLOR` is set).
    pub fn with_no_color(self, no_color: bool, no_color_env: bool) -> (c: Self)
        ensures
            c.spec_use_color() == (!no_color && !no_color_env),
            c.spec_verbosity() == self.spec_verbosity(),
            c.spec_config() == self.spec_config(),
            c.stats() == self.stats(),
            c.wf() == self.wf(),
    {
        DefaultCallback { use_color: !no_color && !no_color_env, ..self }
    }

    /// The configuration.
    pub fn config(&self) -> (c: DefaultCallbackConfig)
        ensures
            c == self.spec_config(),
    {
        self.config
    }

    /// Whether colors are used.
    pub fn use_color(&self) -> (b: bool)
        ensures
            b == self.spec_use_color(),
    {
        self.use_color
    }

    /// The verbosity.
    pub fn verbosity(&self) -> (v: Verbosity)
        ensures
            v == verbosity_of(self.spec_verbosity()),
    {
        Verbosity::from(self.verbosity)
    }

    /// The counts of `host`, if it has any.
    pub fn host_stats(&self, host: &str) -> (r: Option<HostStats>)
        requires
            self.wf(),
        ensures
            r == if self.stats().contains_key(host@) {
                Some(self.stats()[host@])
            } else {
                None::<HostStats>
            },
    {
        self.host_stats.get(host)
    }

    /// The playbook's name, if one started.
    pub fn playbook_name(&self) -> (r: Option<&String>)
        ensures
            opt_chars(match r { Some(s) => Some(*s), None => None }) == self.spec_playbook_name(),
    {
        match &self.playbook_name {
            Some(s) => Some(s),
            None => None,
        }
    }

    /// The current play, if any.
    pub fn current_play(&self) -> (r: Option<&String>)
        ensures
            opt_chars(match r { Some(s) => Some(*s), None => None }) == self.spec_current_play(),
    {
        match &self.current_play {
            Some(s) => Some(s),
            None => None,
        }
    }

    /// The current task, if any.
    pub fn current_task(&self) -> (r: Option<&String>)
        ensures
            opt_chars(match r { Some(s) => Some(*s), None => None }) == self.spec_current_task(),
    {
        match &self.current_task {
            Some(s) => Some(s),
            None => None,
        }
    }

    /// The key under which a task's start on a host is timed:
    /// `task:host`.
    pub fn task_key(task_name: &str, host: &str) -> (k: String)
        ensures
            k@ == task_name@ + ":"@ + host@,
    {
        let mut k = String::new();
        push_str(&mut k, task_name);
        push_str(&mut k, ":");
        push_str(&mut k, host);
        k
    }

    // -----------------------------------------------------------------------
    // Events
    // -----------------------------------------------------------------------

    /// A playbook starts: counts are reset; at `-v` its name is shown.
    pub fn on_playbook_start(&mut self, name: &str) -> (out: Vec<Vec<Span>>)
        ensures
            final(self).wf(),
            final(self).stats() == Map::<Seq<char>, HostStats>::empty(),
            final(self).spec_started(),
            final(self).spec_playbook_name() == Some(name@),
            final(self).spec_config() == old(self).spec_config(),
            final(self).spec_use_color() == old(self).spec_use_color(),
            final(self).spec_verbosity() == old(self).spec_verbosity(),
            lines_view(out@) == if old(self).spec_verbosity() >= 1 {
                seq![
                    Seq::<SpanView>::empty(),
                    if old(self).spec_use_color() {
                        seq![("PLAYBOOK:"@, bold_style(Color::BrightWhite)), (" "@, plain_style()), (name@, color_style(Color::BrightWhite))]
                    } else {
                        seq![("PLAYBOOK: "@ + name@, plain_style())]
                    },
                ]
            } else {
                Seq::<Seq<SpanView>>::empty()
            },
    {
        self.started = true;
        self.playbook_name = Some(name.to_owned());
        self.host_stats.clear();
        let mut out = Vec::new();
        if self.verbosity >= 1 {
            push_line(&mut out, blank());
            let mut l = Vec::new();
            if self.use_color {
                push_span(&mut l, "PLAYBOOK:", Style::bold(Color::BrightWhite));
                push_span(&mut l, " ", Style::plain());
                push_span(&mut l, name, Style::fg(Color::BrightWhite));
            } else {
                let mut t = String::new();
                push_str(&mut t, "PLAYBOOK: ");
                push_str(&mut t, name);
                push_owned(&mut l, t, Style::plain());
            }
            push_line(&mut out, l);
        }
        proof {
            if self.verbosity >= 1 {
                assert(lines_view(out@)[1] =~= if self.use_color {
                    seq![("PLAYBOOK:"@, bold_style(Color::BrightWhite)), (" "@, plain_style()), (name@, color_style(Color::BrightWhite))]
                } else {
                    seq![("PLAYBOOK: "@ + name@, plain_style())]
                });
            }
            assert(lines_view(out@) =~= if old(self).verbosity >= 1 {
                seq![
                    Seq::<SpanView>::empty(),
                    if old(self).use_color {
                        seq![("PLAYBOOK:"@, bold_style(Color::BrightWhite)), (" "@, plain_style()), (name@, color_style(Color::BrightWhite))]
                    } else {
                        seq![("PLAYBOOK: "@ + name@, plain_style())]
                    },
                ]
            } else {
                Seq::<Seq<SpanView>>::empty()
            });
        }
        out
    }

    /// A play starts: its hosts get (empty) counts and its header is shown.
    pub fn on_play_start(&mut self, name: &str, hosts: &Vec<String>) -> (out: Vec<Vec<Span>>)
        requires
            old(self).wf(),
        ensures
            final(self).wf(),
            forall|k: Seq<char>| #[trigger] final(self).stats().contains_key(k) <==> (old(self).stats().contains_key(k)
                || views(hosts@).contains(k)),
            forall|k: Seq<char>| #[trigger] final(self).stats().contains_key(k) ==> final(self).stats()[k] == stats_of(
                old(self).stats(),
                k,
            ),
            final(self).spec_current_play() == Some(name@),
            lines_view(out@) == seq![Seq::<SpanView>::empty(), header_line(old(self).spec_use_color(), "PLAY"@, name@)],
            final(self).spec_config() == old(self).spec_config(),
            final(self).spec_use_color() == old(self).spec_use_color(),
            final(self).spec_verbosity() == old(self).spec_verbosity(),
            final(self).spec_started() == old(self).spec_started(),
    {
        self.current_play = Some(name.to_owned());
        let mut i: usize = 0;
        while i < hosts.len()
            invariant
                i <= hosts.len(),
                self.host_stats.wf(),
                opt_chars(self.current_play) == Some(name@),
                forall|k: Seq<char>| #[trigger] self.stats().contains_key(k) <==> (old(self).stats().contains_key(k)
                    || views(hosts@.subrange(0, i as int)).contains(k)),
                forall|k: Seq<char>| #[trigger] self.stats().contains_key(k) ==> self.stats()[k] == stats_of(
                    old(self).stats(),
                    k,
                ),
                self.config == old(self).config,
                self.use_color == old(self).use_color,
                self.verbosity == old(self).verbosity,
                self.started == old(self).started,
            decreases hosts.len() - i,
        {
            let ghost before = self.stats();
            let z = HostStats::default();
            self.host_stats.ensure(hosts[i].as_str(), z);
            proof {
                let k0 = hosts@[i as int]@;
                assert forall|k: Seq<char>| #[trigger] self.stats().contains_key(k) implies self.stats()[k] == stats_of(
                    old(self).stats(),
                    k,
                ) by {
                    if before.contains_key(k) {
                        assert(self.stats()[k] == before[k]);
                    } else {
                        assert(k == k0);
                        assert(!old(self).stats().contains_key(k));
                    }
                }
                let prev = views(hosts@.subrange(0, i as int));
                let cur = views(hosts@.subrange(0, i + 1));
                assert(cur =~= prev.push(hosts@[i as int]@));
                assert forall|k: Seq<char>| cur.contains(k) <==> (prev.contains(k) || k == hosts@[i as int]@) by {
                    if cur.contains(k) {
                        let j = choose|j: int| 0 <= j < cur.len() && cur[j] == k;
                        if j < prev.len() {
                            assert(prev[j] == k);
                        }
                    }
                    if prev.contains(k) {
                        let j = choose|j: int| 0 <= j < prev.len() && prev[j] == k;
                        assert(cur[j] == k);
                    }
                    if k == hosts@[i as int]@ {
                        assert(cur[i as int] == k);
                    }
                }
            }
            i = i + 1;
        }
        proof {
            assert(hosts@.subrange(0, i as int) =~= hosts@);
            assert(views(hosts@.subrange(0, i as int)) =~= views(hosts@));
        }
        let mut out = Vec::new();
        push_line(&mut out, blank());
        push_line(&mut out, header(self.use_color, "PLAY", name));
        proof {
            assert(lines_view(out@) =~= seq![Seq::<SpanView>::empty(), header_line(self.use_color, "PLAY"@, name@)]);
        }
        out
    }

    /// A play ends.
    pub fn on_play_end(&mut self, name: &str, success: bool)
        ensures
            final(self).spec_current_play() is None,
            final(self).stats() == old(self).stats(),
            final(self).wf() == old(self).wf(),
            final(self).spec_config() == old(self).spec_config(),
            final(self).spec_use_color() == old(self).spec_use_color(),
            final(self).spec_verbosity() == old(self).spec_verbosity(),
    {
        self.current_play = None;
    }

    /// A task starts on a host: the task's header is shown once, for the
    /// first host it starts on.
    pub fn on_task_start(&mut self, name: &str, host: &str) -> (out: Vec<Vec<Span>>)
        ensures
            final(self).spec_current_task() == Some(name@),
            final(self).spec_header_printed(),
            lines_view(out@) == if old(self).spec_current_task() == Some(name@) && old(self).spec_header_printed() {
                Seq::<Seq<SpanView>>::empty()
            } else {
                seq![Seq::<SpanView>::empty(), header_line(old(self).spec_use_color(), "TASK"@, name@)]
            },
            final(self).stats() == old(self).stats(),
            final(self).wf() == old(self).wf(),
            final(self).spec_config() == old(self).spec_config(),
            final(self).spec_use_color() == old(self).spec_use_color(),
            final(self).spec_verbosity() == old(self).spec_verbosity(),
    {
        let same = match &self.current_task {
            Some(t) => str_eq(t.as_str(), name),
            None => false,
        };
        if !same {
            self.current_task = Some(name.to_owned());
            self.task_header_printed = false;
        }
        let mut out = Vec::new();
        if !self.task_header_printed {
            self.task_header_printed = true;
            push_line(&mut out, blank());
            push_line(&mut out, header(self.use_color, "TASK", name));
            proof {
                assert(lines_view(out@) =~= seq![Seq::<SpanView>::empty(), header_line(self.use_color, "TASK"@, name@)]);
            }
        } else {
            proof {
                assert(lines_view(out@) =~= Seq::<Seq<SpanView>>::empty());
            }
        }
        out
    }

    /// A task finished: it is counted for its host, and its status line is
    /// shown unless ok or skipped tasks are hidden; failures show their data
    /// (`data_pretty`, the pretty-printed data, when the result has data),
    /// and with `-v` the message, at `-vv` the data, and the duration if
    /// configured.
    pub fn on_task_complete(&mut self, result: &ExecutionResult) -> (out: Vec<Vec<Span>>)
        requires
            old(self).wf(),
            result.duration.wf(),
        ensures
            final(self).wf(),
            final(self).stats() == old(self).stats().insert(
                result.host@,
                count_outcome(stats_of(old(self).stats(), result.host@), outcome_of(result.result)),
            ),
            lines_view(out@) == task_lines(
                old(self).spec_config(),
                old(self).spec_use_color(),
                old(self).spec_verbosity(),
                result,
                data_text(*result),
            ),
            final(self).spec_config() == old(self).spec_config(),
            final(self).spec_use_color() == old(self).spec_use_color(),
            final(self).spec_verbosity() == old(self).spec_verbosity(),
            final(self).spec_started() == old(self).spec_started(),
    {
        let pretty = match &result.result.data {
            Some(d) => Some(pretty_json(d)),
            None => None,
        };
        let data_pretty: Option<&str> = match &pretty {
            Some(p) => Some(p.as_str()),
            None => None,
        };
        let host = result.host.as_str();
        let mut s = match self.host_stats.get(host) {
            Some(s) => s,
            None => HostStats::default(),
        };
        match classify(&result.result) {
            TaskOutcome::Skipped => s.skipped = inc(s.skipped),
            TaskOutcome::Failed => s.failed = inc(s.failed),
            TaskOutcome::Changed => s.changed = inc(s.changed),
            TaskOutcome::Unchanged => s.ok = inc(s.ok),
        }
        self.host_stats.set(host, s);
        let r = &result.result;
        let color = self.use_color;
        let mut out: Vec<Vec<Span>> = Vec::new();
        if (r.skipped && !self.config.show_skipped) || (r.success && !r.changed && !self.config.show_ok) {
            return out;
        }
        push_line(&mut out, self.status_spans(r, host));
        let ghost after_status = lines_view(out@);
        if !r.skipped && !r.success {
            match data_pretty {
                Some(d) => push_data_lines(&mut out, d, Style::fg_if(color, Color::Red)),
                None => {},
            }
        }
        let ghost dv = match data_pretty {
            Some(d) => Some(d@),
            None => None,
        };
        proof {
            assert(lines_view(out@) =~= after_status + failure_data_lines(color, *r, dv));
        }
        let more = self.verbose_part(result, data_pretty);
        append_lines(&mut out, more);
        proof {
            assert(lines_view(out@) =~= task_lines(self.config, self.use_color, self.verbosity, result, dv));
        }
        out
    }

    fn verbose_part(&self, result: &ExecutionResult, data_pretty: Option<&str>) -> (out: Vec<Vec<Span>>)
        requires
            result.duration.wf(),
        ensures
            lines_view(out@) == verbose_lines(
                self.config,
                self.use_color,
                self.verbosity,
                result,
                match data_pretty {
                    Some(d) => Some(d@),
                    None => None,
                },
            ),
    {
        let r = &result.result;
        let color = self.use_color;
        let mut out: Vec<Vec<Span>> = Vec::new();
        if self.verbosity >= 1 {
            if r.message.as_str().unicode_len() > 0 {
                push_line(&mut out, detail(color, "msg", r.message.as_str(), Style::plain()));
            }
            let ghost after_msg = lines_view(out@);
            if self.verbosity >= 2 {
                match data_pretty {
                    Some(d) => push_data_lines(&mut out, d, Style::fg_if(color, Color::BrightBlack)),
                    None => {},
                }
            }
            let ghost after_more = lines_view(out@);
            if self.config.show_duration {
                let d = format_duration(&result.duration);
                push_line(&mut out, detail(color, "duration", d.as_str(), Style::fg_if(color, Color::BrightBlack)));
            }
            proof {
                let dv = match data_pretty {
                    Some(d) => Some(d@),
                    None => None,
                };
                let msg = if r.message@.len() > 0 {
                    seq![detail_line(color, "msg"@, r.message@, plain_style())]
                } else {
                    Seq::empty()
                };
                assert(after_msg =~= msg);
                let more = if self.verbosity >= 2 {
                    match dv {
                        Some(d) => data_lines(lines_of(d), if color { color_style(Color::BrightBlack) } else { plain_style() }),
                        None => Seq::empty(),
                    }
                } else {
                    Seq::empty()
                };
                assert(after_more =~= msg + more);
            }
        }
        proof {
            assert(lines_view(out@) =~= verbose_lines(
                self.config,
                self.use_color,
                self.verbosity,
                result,
                match data_pretty {
                    Some(d) => Some(d@),
                    None => None,
                },
            ));
        }
        out
    }

    fn status_spans(&self, r: &ModuleResult, host: &str) -> (l: Vec<Span>)
        ensures
            line_view(l@) == status_line(self.use_color, self.verbosity, *r, host@),
    {
        let color = self.use_color;
        let (word, c) = if r.skipped {
            ("skipping", Color::Cyan)
        } else if !r.success {
            ("fatal", Color::Red)
        } else if r.changed {
            ("changed", Color::Yellow)
        } else {
            ("ok", Color::Green)
        };
        let mut l = Vec::new();
        push_span(&mut l, word, Style::fg_if(color, c));
        push_span(&mut l, ": [", Style::plain());
        let host_style = if !color {
            Style::plain()
        } else if !r.success {
            Style::bold(Color::Red)
        } else {
            Style::bold(Color::BrightWhite)
        };
        push_span(&mut l, host, host_style);
        push_span(&mut l, "]", Style::plain());
        let msg = r.message.as_str();
        let has_msg = msg.unicode_len() > 0;
        if r.skipped || (r.success && !r.changed) {
            let is_debug = match &r.data {
                Some(JsonValue::Object(entries)) => entries.len() == 1,
                _ => false,
            };
            if is_debug && has_msg {
                push_span(&mut l, " => ", Style::plain());
                push_span(&mut l, msg, Style::fg_if(color, Color::BrightBlack));
            }
        } else if r.changed {
            if self.verbosity >= 1 && has_msg {
                push_span(&mut l, " => ", Style::plain());
                push_span(&mut l, msg, Style::fg_if(color, Color::BrightBlack));
            }
        } else {
            if has_msg {
                push_span(&mut l, " => ", Style::plain());
                let mut t = String::new();
                push_str(&mut t, "{");
                push_str(&mut t, msg);
                push_str(&mut t, "}");
                push_owned(&mut l, t, Style::fg_if(color, Color::Red));
            }
        }
        proof {
            assert(line_view(l@) =~= status_line(self.use_color, self.verbosity, *r, host@));
        }
        l
    }

    /// The recap line of one host.
    pub fn format_recap_line(&self, host: &str, s: &HostStats) -> (l: Vec<Span>)
        ensures
            line_view(l@) == recap_line(self.spec_use_color(), host@, *s),
    {
        let color = self.use_color;
        let host_style = if !color {
            Style::plain()
        } else if s.failed > 0 || s.unreachable > 0 {
            Style::bold(Color::Red)
        } else if s.changed > 0 {
            Style::fg(Color::Yellow)
        } else {
            Style::fg(Color::Green)
        };
        let mut padded = String::new();
        push_padded(&mut padded, host, 30);
        let mut l = Vec::new();
        push_owned(&mut l, padded, host_style);
        push_span(&mut l, " : ", Style::plain());
        stat(&mut l, color, "ok", s.ok, Color::Green);
        push_span(&mut l, "    ", Style::plain());
        stat(&mut l, color, "changed", s.changed, Color::Yellow);
        push_span(&mut l, "    ", Style::plain());
        stat(&mut l, color, "unreachable", s.unreachable, Color::Red);
        push_span(&mut l, "    ", Style::plain());
        stat(&mut l, color, "failed", s.failed, Color::Red);
        push_span(&mut l, "    ", Style::plain());
        stat(&mut l, color, "skipped", s.skipped, Color::Cyan);
        push_span(&mut l, "    ", Style::plain());
        stat(&mut l, color, "rescued", s.rescued, Color::Magenta);
        push_span(&mut l, "    ", Style::plain());
        stat(&mut l, color, "ignored", s.ignored, Color::Blue);
        proof {
            assert(line_view(l@) =~= recap_line(color, host@, *s));
        }
        l
    }

    /// The playbook ended: the recap (hosts in name order), then, if the
    /// playbook started, how it ended and how long it took.
    pub fn on_playbook_end(&self, name: &str, success: bool, elapsed: &Elapsed) -> (out: Vec<Vec<Span>>)
        requires
            self.wf(),
            elapsed.wf(),
        ensures
            ({
                let color = self.spec_use_color();
                let m = self.stats();
                let fin = if self.spec_started() {
                    let status = if success { "completed"@ } else { "failed"@ };
                    let st = if !color {
                        plain_style()
                    } else if success {
                        bold_style(Color::Green)
                    } else {
                        bold_style(Color::Red)
                    };
                    let d = duration_text(elapsed.secs_of(), elapsed.subsec_millis_of());
                    seq![
                        Seq::<SpanView>::empty(),
                        seq![
                            ("Playbook "@, plain_style()),
                            (status, st),
                            (" in "@, plain_style()),
                            (d, if color { color_style(Color::BrightWhite) } else { plain_style() }),
                        ],
                    ]
                } else {
                    Seq::empty()
                };
                lines_view(out@) == seq![Seq::<SpanView>::empty(), recap_header_line(color)] + recap_lines(
                    color,
                    sorted_keys(m),
                    m,
                ) + fin
            }),
    {
        let color = self.use_color;
        let ghost m = self.stats();
        let mut out: Vec<Vec<Span>> = Vec::new();
        push_line(&mut out, blank());
        let stars = repeat_string('*', 69);
        let mut hl = Vec::new();
        if color {
            push_span(&mut hl, "PLAY RECAP", Style::bold(Color::BrightWhite));
            push_span(&mut hl, " ", Style::plain());
            push_owned(&mut hl, stars, Style::fg(Color::BrightBlack));
        } else {
            let mut t = String::new();
            push_str(&mut t, "PLAY RECAP ");
            push_str(&mut t, stars.as_str());
            push_owned(&mut hl, t, Style::plain());
        }
        proof {
            assert(line_view(hl@) =~= recap_header_line(color));
        }
        push_line(&mut out, hl);
        let hosts = self.host_stats.sorted_names();
        proof {
            lemma_sorted_keys(views(hosts@), m);
        }
        let ghost start = lines_view(out@);
        let mut i: usize = 0;
        while i < hosts.len()
            invariant
                self.wf(),
                m == self.stats(),
                color == self.use_color,
                i <= hosts.len(),
                forall|k: Seq<char>| m.contains_key(k) <==> views(hosts@).contains(k),
                lines_view(out@) == start + recap_lines(color, views(hosts@).subrange(0, i as int), m),
            decreases hosts.len() - i,
        {
            let h = hosts[i].as_str();
            proof {
                assert(views(hosts@)[i as int] == h@);
                assert(views(hosts@).contains(h@));
            }
            let s = match self.host_stats.get(h) {
                Some(s) => s,
                None => HostStats::default(),
            };
            push_line(&mut out, self.format_recap_line(h, &s));
            proof {
                let sub = views(hosts@).subrange(0, i + 1);
                assert(sub.drop_last() =~= views(hosts@).subrange(0, i as int));
                assert(sub.last() == h@);
            }
            i = i + 1;
        }
        proof {
            assert(views(hosts@).subrange(0, i as int) =~= views(hosts@));
        }
        let ghost after_recap = lines_view(out@);
        if self.started {
            push_line(&mut out, blank());
            let d = format_duration(elapsed);
            let mut l = Vec::new();
            push_span(&mut l, "Playbook ", Style::plain());
            if success {
                push_span(&mut l, "completed", Style::bold_if(color, Color::Green));
            } else {
                push_span(&mut l, "failed", Style::bold_if(color, Color::Red));
            }
            push_span(&mut l, " in ", Style::plain());
            push_owned(&mut l, d, Style::fg_if(color, Color::BrightWhite));
            proof {
                let status = if success { "completed"@ } else { "failed"@ };
                let st = if !color {
                    plain_style()
                } else if success {
                    bold_style(Color::Green)
                } else {
                    bold_style(Color::Red)
                };
                assert(line_view(l@) =~= seq![
                    ("Playbook "@, plain_style()),
                    (status, st),
                    (" in "@, plain_style()),
                    (duration_text(elapsed.secs_of(), elapsed.subsec_millis_of()), if color { color_style(Color::BrightWhite) } else { plain_style() }),
                ]);
            }
            push_line(&mut out, l);
        }
        proof {
            let fin = if self.started {
                let status = if success { "completed"@ } else { "failed"@ };
                let st = if !color {
                    plain_style()
                } else if success {
                    bold_style(Color::Green)
                } else {
                    bold_style(Color::Red)
                };
                let d = duration_text(elapsed.secs_of(), elapsed.subsec_millis_of());
                seq![
                    Seq::<SpanView>::empty(),
                    seq![
                        ("Playbook "@, plain_style()),
                        (status, st),
                        (" in "@, plain_style()),
                        (d, if color { color_style(Color::BrightWhite) } else { plain_style() }),
                    ],
                ]
            } else {
                Seq::empty()
            };
            assert(lines_view(out@) =~= after_recap + fin);
        }
        out
    }

    /// A handler runs: shown at `-v`.
    pub fn on_handler_triggered(&self, name: &str) -> (out: Vec<Vec<Span>>)
        ensures
            lines_view(out@) == if self.spec_verbosity() >= 1 {
                seq![
                    if self.spec_use_color() {
                        seq![("RUNNING HANDLER"@, bold_style(Color::BrightWhite)), (" "@, plain_style()), ("["@ + name@ + "]"@, color_style(Color::BrightWhite))]
                    } else {
                        seq![("RUNNING HANDLER ["@ + name@ + "]"@, plain_style())]
                    },
                ]
            } else {
                Seq::<Seq<SpanView>>::empty()
            },
    {
        let mut out = Vec::new();
        if self.verbosity >= 1 {
            let mut l = Vec::new();
            let mut b = String::new();
            push_str(&mut b, "[");
            push_str(&mut b, name);
            push_str(&mut b, "]");
            if self.use_color {
                push_span(&mut l, "RUNNING HANDLER", Style::bold(Color::BrightWhite));
                push_span(&mut l, " ", Style::plain());
                push_owned(&mut l, b, Style::fg(Color::BrightWhite));
            } else {
                let mut t = String::new();
                push_str(&mut t, "RUNNING HANDLER [");
                push_str(&mut t, name);
                push_str(&mut t, "]");
                push_owned(&mut l, t, Style::plain());
            }
            proof {
                assert(line_view(l@) =~= if self.use_color {
                    seq![("RUNNING HANDLER"@, bold_style(Color::BrightWhite)), (" "@, plain_style()), ("["@ + name@ + "]"@, color_style(Color::BrightWhite))]
                } else {
                    seq![("RUNNING HANDLER ["@ + name@ + "]"@, plain_style())]
                });
            }
            push_line(&mut out, l);
        }
        proof {
            assert(lines_view(out@) =~= if self.verbosity >= 1 {
                seq![
                    if self.use_color {
                        seq![("RUNNING HANDLER"@, bold_style(Color::BrightWhite)), (" "@, plain_style()), ("["@ + name@ + "]"@, color_style(Color::BrightWhite))]
                    } else {
                        seq![("RUNNING HANDLER ["@ + name@ + "]"@, plain_style())]
                    },
                ]
            } else {
                Seq::<Seq<SpanView>>::empty()
            });
        }
        out
    }

    /// Facts were gathered for a host: shown at `-vvv`.
    pub fn on_facts_gathered(&self, host: &str) -> (out: Vec<Vec<Span>>)
        ensures
            lines_view(out@) == if self.spec_verbosity() >= 3 {
                seq![
                    if self.spec_use_color() {
                        seq![("ok"@, color_style(Color::Green)), (": ["@, plain_style()), (host@, bold_style(Color::BrightWhite)), ("]"@, plain_style())]
                    } else {
                        seq![("ok: ["@ + host@ + "]"@, plain_style())]
                    },
                ]
            } else {
                Seq::<Seq<SpanView>>::empty()
            },
    {
        let mut out = Vec::new();
        if self.verbosity >= 3 {
            let mut l = Vec::new();
            if self.use_color {
                push_span(&mut l, "ok", Style::fg(Color::Green));
                push_span(&mut l, ": [", Style::plain());
                push_span(&mut l, host, Style::bold(Color::BrightWhite));
                push_span(&mut l, "]", Style::plain());
            } else {
                let mut t = String::new();
                push_str(&mut t, "ok: [");
                push_str(&mut t, host);
                push_str(&mut t, "]");
                push_owned(&mut l, t, Style::plain());
            }
            proof {
                assert(line_view(l@) =~= if self.use_color {
                    seq![("ok"@, color_style(Color::Green)), (": ["@, plain_style()), (host@, bold_style(Color::BrightWhite)), ("]"@, plain_style())]
                } else {
                    seq![("ok: ["@ + host@ + "]"@, plain_style())]
                });
            }
            push_line(&mut out, l);
        }
        proof {
            assert(lines_view(out@) =~= if self.verbosity >= 3 {
                seq![
                    if self.use_color {
                        seq![("ok"@, color_style(Color::Green)), (": ["@, plain_style()), (host@, bold_style(Color::BrightWhite)), ("]"@, plain_style())]
                    } else {
                        seq![("ok: ["@ + host@ + "]"@, plain_style())]
                    },
                ]
            } else {
                Seq::<Seq<SpanView>>::empty()
            });
        }
        out
    }
}

} // verus!
