//! The counter plugin: task and host progress (`Task 2/5`, `Host 3/10`),
//! running counts, an estimate of the time left, and a recap.
use vstd::prelude::*;
use crate::plugins::actionable::{lemma_sorted_keys, opt_chars, sorted_keys};
use crate::style::{
    append_lines, blank, bold_style, color_style, line_view, lines_view, plain_style, push_line, push_owned,
    push_span, single, text_of, Color, Span, SpanView, Style,
};
use crate::table::{views, HostTable};
use crate::text::{
    byte_len, dec, dec_string, dec_zero_padded, pad_right, push_dec, push_dec_zero_padded, push_padded, push_str,
    repeat_char, repeat_string, sat_sub, str_eq, utf8_len,
};
use crate::types::{inc, wrap_inc, Elapsed, ExecutionResult};

verus! {

/// Task counts for one host.
#[derive(Clone, Copy, Debug, PartialEq, Eq, Structural)]
pub struct HostStats {
    pub ok: u32,
    pub changed: u32,
    pub failed: u32,
    pub skipped: u32,
    pub unreachable: u32,
}

/// The sum of a host's counts.
pub open spec fn stats_total(s: HostStats) -> int {
    s.ok + s.changed + s.failed + s.skipped + s.unreachable
}

impl HostStats {
    /// All tasks counted for the host (the sum must fit in `u32`).
    pub fn total(&self) -> (t: u32)
        requires
            stats_total(*self) <= u32::MAX,
        ensures
            t == stats_total(*self),
    {
        self.ok + self.changed + self.failed + self.skipped + self.unreachable
    }
}

/// Task counts over all hosts.
#[derive(Clone, Copy, Debug, PartialEq, Eq, Structural)]
pub struct GlobalStats {
    pub ok: u32,
    pub changed: u32,
    pub failed: u32,
    pub skipped: u32,
    pub unreachable: u32,
}

/// The sum of the global counts.
pub open spec fn global_total(s: GlobalStats) -> int {
    s.ok + s.changed + s.failed + s.skipped + s.unreachable
}

impl GlobalStats {
    /// All task runs counted (the sum must fit in `u32`).
    pub fn total(&self) -> (t: u32)
        requires
            global_total(*self) <= u32::MAX,
        ensures
            t == global_total(*self),
    {
        self.ok + self.changed + self.failed + self.skipped + self.unreachable
    }
}

/// The total of a list of durations, in nanoseconds.
pub open spec fn nanos_sum(s: Seq<Elapsed>) -> int
    decreases s.len(),
{
    if s.len() == 0 {
        0
    } else {
        nanos_sum(s.drop_last()) + s.last().nanos
    }
}

/// The durations of finished tasks.
#[derive(Clone, Debug)]
pub struct TaskTiming {
    pub completed_durations: Vec<Elapsed>,
}

impl TaskTiming {
    /// No durations yet.
    pub fn new() -> (t: Self)
        ensures
            t.completed_durations@.len() == 0,
    {
        TaskTiming { completed_durations: Vec::new() }
    }

    /// The average duration (the total divided by the count, rounded down to
    /// the nanosecond), if there are any; the total must stay in the range
    /// of a duration and the count fit in `u32`.
    pub fn average_duration(&self) -> (r: Option<Elapsed>)
        requires
            nanos_sum(self.completed_durations@) <= crate::types::max_elapsed_nanos(),
            self.completed_durations@.len() <= u32::MAX,
        ensures
            match r {
                Some(e) => self.completed_durations@.len() > 0 && e.nanos == nanos_sum(self.completed_durations@)
                    / (self.completed_durations@.len() as int),
                None => self.completed_durations@.len() == 0,
            },
    {
        let n = self.completed_durations.len();
        if n == 0 {
            return None;
        }
        let mut total = Elapsed::zero();
        let mut i: usize = 0;
        proof {
            assert(self.completed_durations@.subrange(0, 0) =~= Seq::<Elapsed>::empty());
        }
        while i < n
            invariant
                i <= n == self.completed_durations@.len(),
                nanos_sum(self.completed_durations@) <= crate::types::max_elapsed_nanos(),
                total.nanos == nanos_sum(self.completed_durations@.subrange(0, i as int)),
            decreases n - i,
        {
            proof {
                let t = self.completed_durations@.subrange(0, i + 1);
                assert(t.drop_last() =~= self.completed_durations@.subrange(0, i as int));
                lemma_nanos_sum_prefix(self.completed_durations@, i + 1);
            }
            total = total.plus(&self.completed_durations[i]);
            i = i + 1;
        }
        proof {
            assert(self.completed_durations@.subrange(0, n as int) =~= self.completed_durations@);
        }
        Some(total.div_by(n as u32))
    }

    /// Records a finished task's duration.
    pub fn record_duration(&mut self, duration: Elapsed)
        ensures
            final(self).completed_durations@ == old(self).completed_durations@.push(duration),
    {
        self.completed_durations.push(duration);
    }
}

/// A prefix of durations sums to no more than the whole.
pub proof fn lemma_nanos_sum_prefix(s: Seq<Elapsed>, i: int)
    requires
        0 <= i <= s.len(),
    ensures
        0 <= nanos_sum(s.subrange(0, i)) <= nanos_sum(s),
    decreases s.len(),
{
    if i < s.len() {
        lemma_nanos_sum_prefix(s.drop_last(), i);
        assert(s.drop_last().subrange(0, i) =~= s.subrange(0, i));
    } else {
        assert(s.subrange(0, i) =~= s);
        lemma_nanos_sum_nonneg(s);
    }
}

/// Durations sum to a non-negative total.
pub proof fn lemma_nanos_sum_nonneg(s: Seq<Elapsed>)
    ensures
        nanos_sum(s) >= 0,
    decreases s.len(),
{
    if s.len() > 0 {
        lemma_nanos_sum_nonneg(s.drop_last());
    }
}

/// Where the run is: the task (counted from 1), the known total of tasks,
/// the hosts of the play and how many finished the current task.
#[derive(Clone, Debug)]
pub struct ProgressState {
    pub current_task: usize,
    pub total_tasks: usize,
    pub current_host: usize,
    pub total_hosts: usize,
    pub current_task_name: String,
    pub current_play_name: String,
    pub hosts_completed_for_task: usize,
}

/// The task runs of the play.
pub open spec fn total_runs(p: ProgressState) -> int {
    p.total_tasks * p.total_hosts
}

/// The task runs finished.
pub open spec fn done_runs(p: ProgressState) -> int {
    p.current_task * p.total_hosts + p.hosts_completed_for_task
}

impl ProgressState {
    /// The start of a run.
    pub fn new() -> (p: Self)
        ensures
            p.current_task == 0,
            p.total_tasks == 0,
            p.current_host == 0,
            p.total_hosts == 0,
            p.hosts_completed_for_task == 0,
            p.current_task_name@ == Seq::<char>::empty(),
            p.current_play_name@ == Seq::<char>::empty(),
    {
        ProgressState {
            current_task: 0,
            total_tasks: 0,
            current_host: 0,
            total_hosts: 0,
            current_task_name: String::new(),
            current_play_name: String::new(),
            hosts_completed_for_task: 0,
        }
    }

    /// The task runs of the play and those finished: the percentage done is
    /// the second over the first (0 when the first is 0).
    pub fn executions(&self) -> (r: (usize, usize))
        requires
            total_runs(*self) <= usize::MAX,
            done_runs(*self) <= usize::MAX,
        ensures
            r.0 == total_runs(*self),
            r.1 == done_runs(*self),
    {
        proof {
            assert(self.current_task * self.total_hosts <= done_runs(*self));
        }
        (self.total_tasks * self.total_hosts, self.current_task * self.total_hosts + self.hosts_completed_for_task)
    }

    /// The time left: the runs not finished times the average duration,
    /// when the average is known and the play has tasks and hosts.
    pub fn eta(&self, avg_duration: Option<Elapsed>) -> (r: Option<Elapsed>)
        requires
            total_runs(*self) <= usize::MAX,
            done_runs(*self) <= usize::MAX,
            total_runs(*self) - done_runs(*self) <= u32::MAX,
            avg_duration matches Some(a) ==> a.nanos * (if total_runs(*self) > done_runs(*self) { total_runs(*self) - done_runs(*self) } else { 0 }) <= crate::types::max_elapsed_nanos(),
        ensures
            r == match avg_duration {
                Some(a) => if self.total_tasks == 0 || self.total_hosts == 0 {
                    None::<Elapsed>
                } else {
                    Some(Elapsed { nanos: (a.nanos * (if total_runs(*self) > done_runs(*self) { total_runs(*self) - done_runs(*self) } else { 0 })) as u128 })
                },
                None => None::<Elapsed>,
            },
    {
        let avg = match avg_duration {
            Some(a) => a,
            None => return None,
        };
        if self.total_tasks == 0 || self.total_hosts == 0 {
            return None;
        }
        let (total, done) = self.executions();
        let remaining: usize = if total > done { total - done } else { 0 };
        Some(avg.times(remaining as u32))
    }
}

/// Configuration for the counter callback.
#[derive(Clone, Copy, Debug, PartialEq, Eq, Structural)]
pub struct CounterConfig {
    /// A line per host and task.
    pub verbose: bool,
    /// The time left.
    pub show_eta: bool,
    /// Colored output.
    pub use_color: bool,
    /// The number of tasks, when known.
    pub total_tasks: Option<usize>,
}

impl Default for CounterConfig {
    fn default() -> (c: Self)
        ensures
            c.verbose,
            c.show_eta,
            c.use_color,
            c.total_tasks is None,
    {
        CounterConfig { verbose: true, show_eta: true, use_color: true, total_tasks: None }
    }
}

// ---------------------------------------------------------------------------
// Durations
// ---------------------------------------------------------------------------

/// A duration as `MM:SS`, or `HH:MM:SS` from an hour on.
pub open spec fn clock_text(secs: nat) -> Seq<char> {
    let h = secs / 3600;
    let m = (secs % 3600) / 60;
    let s = secs % 60;
    if h > 0 {
        dec_zero_padded(h, 2) + ":"@ + dec_zero_padded(m, 2) + ":"@ + dec_zero_padded(s, 2)
    } else {
        dec_zero_padded(m, 2) + ":"@ + dec_zero_padded(s, 2)
    }
}

/// A duration as `1h 2m 3s`, `2m 3s` or `3s`.
pub open spec fn human_text(secs: nat) -> Seq<char> {
    let h = secs / 3600;
    let m = (secs % 3600) / 60;
    let s = secs % 60;
    if h > 0 {
        dec(h) + "h "@ + dec(m) + "m "@ + dec(s) + "s"@
    } else if m > 0 {
        dec(m) + "m "@ + dec(s) + "s"@
    } else {
        dec(s) + "s"@
    }
}

/// A duration as `MM:SS` or `HH:MM:SS` (whole seconds).
pub fn format_duration(d: &Elapsed) -> (s: String)
    requires
        d.wf(),
    ensures
        s@ == clock_text(d.secs_of()),
{
    let secs = d.as_secs();
    let h = secs / 3600;
    let m = (secs % 3600) / 60;
    let sec = secs % 60;
    let mut s = String::new();
    if h > 0 {
        push_dec_zero_padded(&mut s, h, 2);
        push_str(&mut s, ":");
    }
    push_dec_zero_padded(&mut s, m, 2);
    push_str(&mut s, ":");
    push_dec_zero_padded(&mut s, sec, 2);
    proof {
        assert(s@ =~= clock_text(d.secs_of()));
    }
    s
}

/// A duration as `1h 2m 3s`, `2m 3s` or `3s` (whole seconds).
pub fn format_duration_human(d: &Elapsed) -> (s: String)
    requires
        d.wf(),
    ensures
        s@ == human_text(d.secs_of()),
{
    let secs = d.as_secs();
    let h = secs / 3600;
    let m = (secs % 3600) / 60;
    let sec = secs % 60;
    let mut s = String::new();
    if h > 0 {
        push_dec(&mut s, h);
        push_str(&mut s, "h ");
        push_dec(&mut s, m);
        push_str(&mut s, "m ");
    } else if m > 0 {
        push_dec(&mut s, m);
        push_str(&mut s, "m ");
    }
    push_dec(&mut s, sec);
    push_str(&mut s, "s");
    proof {
        assert(s@ =~= human_text(d.secs_of()));
    }
    s
}


// ---------------------------------------------------------------------------
// Lines
// ---------------------------------------------------------------------------

/// A style when colors are on, plain otherwise.
pub open spec fn styled(color: bool, s: Style) -> Style {
    if color {
        s
    } else {
        plain_style()
    }
}

/// A header `text` followed by stars up to 80 bytes.
pub open spec fn starred(color: bool, text: Seq<char>, c: Color) -> Seq<SpanView> {
    seq![
        (text, styled(color, bold_style(c))),
        (" "@, plain_style()),
        (repeat_char('*', sat_sub(80, (utf8_len(text) as usize) + 1)), styled(color, color_style(Color::BrightBlack))),
    ]
}

fn starred_line(color: bool, text: String, c: Color) -> (l: Vec<Span>)
    ensures
        line_view(l@) == starred(color, text@, c),
{
    let n = byte_len(text.as_str());
    let pad: usize = if n >= 79 { 0 } else { 79 - n };
    let ghost tv = text@;
    let mut l = Vec::new();
    push_owned(&mut l, text, Style::bold_if(color, c));
    push_span(&mut l, " ", Style::plain());
    push_owned(&mut l, repeat_string('*', pad), Style::fg_if(color, Color::BrightBlack));
    proof {
        assert(line_view(l@) =~= starred(color, tv, c));
    }
    l
}

/// The status of a host's result and its style.
pub open spec fn host_status(color: bool, status: Seq<char>, changed: bool) -> SpanView {
    if status == "ok"@ && changed {
        ("changed"@, styled(color, color_style(Color::Yellow)))
    } else if status == "ok"@ {
        ("ok"@, styled(color, color_style(Color::Green)))
    } else if status == "failed"@ {
        ("failed"@, styled(color, bold_style(Color::Red)))
    } else if status == "skipped"@ {
        ("skipped"@, styled(color, color_style(Color::Cyan)))
    } else if status == "unreachable"@ {
        ("unreachable"@, styled(color, bold_style(Color::Magenta)))
    } else {
        (status, plain_style())
    }
}

/// A host's result: `Host c/t | host | status`.
pub open spec fn host_result_line(color: bool, host: Seq<char>, current: nat, total: nat, status: Seq<char>, changed: bool) -> Seq<SpanView> {
    seq![
        ("Host "@ + dec(current) + "/"@ + dec(total), styled(color, color_style(Color::BrightBlack))),
        (" | "@, plain_style()),
        (host, styled(color, color_style(Color::BrightWhite))),
        (" | "@, plain_style()),
        host_status(color, status, changed),
    ]
}

/// The progress line: percentage, counts and, when shown and known, the
/// time left.
pub open spec fn progress_line(color: bool, show_eta: bool, pct: Seq<char>, g: GlobalStats, eta: Option<Elapsed>) -> Seq<SpanView> {
    seq![
        ("Progress: "@, plain_style()),
        (pct, styled(color, bold_style(Color::BrightWhite))),
        (" | ok: "@, plain_style()),
        (dec(g.ok as nat), styled(color, color_style(Color::Green))),
        (" | changed: "@, plain_style()),
        (dec(g.changed as nat), styled(color, color_style(Color::Yellow))),
        (" | failed: "@, plain_style()),
        (dec(g.failed as nat), styled(color, color_style(Color::Red))),
        (" | skipped: "@, plain_style()),
        (dec(g.skipped as nat), styled(color, color_style(Color::Cyan))),
        (match eta {
            Some(d) => if show_eta { " | ETA: "@ + clock_text(d.secs_of()) } else { Seq::empty() },
            None => Seq::empty(),
        }, styled(color, color_style(Color::BrightBlack))),
    ]
}

/// A host's recap line, the host padded to 30 characters.
pub open spec fn recap_line(color: bool, host: Seq<char>, s: HostStats) -> Seq<SpanView> {
    seq![
        (pad_right(host, 30), styled(color, if s.failed > 0 || s.unreachable > 0 {
            bold_style(Color::Red)
        } else if s.changed > 0 {
            color_style(Color::Yellow)
        } else {
            color_style(Color::Green)
        })),
        (" : ok="@, plain_style()),
        (dec(s.ok as nat), styled(color, color_style(Color::Green))),
        (" changed="@, plain_style()),
        (dec(s.changed as nat), styled(color, color_style(Color::Yellow))),
        (" failed="@, plain_style()),
        (dec(s.failed as nat), styled(color, color_style(Color::Red))),
        (" skipped="@, plain_style()),
        (dec(s.skipped as nat), styled(color, color_style(Color::Cyan))),
    ]
}

/// Whatever the coloring, a host's recap line reads `host : ok=N
/// changed=N failed=N skipped=N`, the host padded to 30 characters and each
/// label followed by the host's own count of that kind.
pub proof fn lemma_recap_line_text(color: bool, host: Seq<char>, s: HostStats)
    ensures
        text_of(recap_line(color, host, s)) == pad_right(host, 30) + " : ok="@ + dec(s.ok as nat) + " changed="@ + dec(s.changed as nat) + " failed="@
            + dec(s.failed as nat) + " skipped="@ + dec(s.skipped as nat),
{
    reveal_with_fuel(text_of, 11);
    assert(text_of(recap_line(color, host, s)) =~= pad_right(host, 30) + " : ok="@ + dec(s.ok as nat) + " changed="@ + dec(s.changed as nat) + " failed="@
            + dec(s.failed as nat) + " skipped="@ + dec(s.skipped as nat));
}

/// The summary: totals and how long the playbook took.
pub open spec fn summary_line(color: bool, g: GlobalStats, secs: nat) -> Seq<SpanView> {
    seq![
        ("Total: "@, plain_style()),
        (dec(g.ok as nat), styled(color, bold_style(Color::Green))),
        (" ok, "@, plain_style()),
        (dec(g.changed as nat), styled(color, bold_style(Color::Yellow))),
        (" changed, "@, plain_style()),
        (dec(g.failed as nat), styled(color, bold_style(Color::Red))),
        (" failed, "@, plain_style()),
        (dec(g.skipped as nat), styled(color, bold_style(Color::Cyan))),
        (" skipped in "@, plain_style()),
        (human_text(secs), styled(color, bold_style(Color::BrightWhite))),
    ]
}

/// A task header: `TASK [name] (current/total)` and stars.
pub fn format_task_header(color: bool, name: &str, current: usize, total: usize) -> (l: Vec<Span>)
    ensures
        line_view(l@) == starred(color, "TASK ["@ + name@ + "] ("@ + dec(current as nat) + "/"@ + dec(total as nat) + ")"@, Color::Cyan),
{
    let mut t = String::new();
    push_str(&mut t, "TASK [");
    push_str(&mut t, name);
    push_str(&mut t, "] (");
    push_dec(&mut t, current as u64);
    push_str(&mut t, "/");
    push_dec(&mut t, total as u64);
    push_str(&mut t, ")");
    let l = starred_line(color, t, Color::Cyan);
    proof {
        assert(t@ =~= "TASK ["@ + name@ + "] ("@ + dec(current as nat) + "/"@ + dec(total as nat) + ")"@);
    }
    l
}


/// A play header: `PLAY [name]` and stars.
pub fn format_play_header(color: bool, name: &str) -> (l: Vec<Span>)
    ensures
        line_view(l@) == starred(color, "PLAY ["@ + name@ + "]"@, Color::Magenta),
{
    let mut t = String::new();
    push_str(&mut t, "PLAY [");
    push_str(&mut t, name);
    push_str(&mut t, "]");
    let ghost tv = t@;
    let l = starred_line(color, t, Color::Magenta);
    proof {
        assert(tv =~= "PLAY ["@ + name@ + "]"@);
    }
    l
}

/// A host's result with its position among the play's hosts.
pub fn format_host_result(color: bool, host: &str, current_host: usize, total_hosts: usize, status: &str, changed: bool) -> (l: Vec<Span>)
    ensures
        line_view(l@) == host_result_line(color, host@, current_host as nat, total_hosts as nat, status@, changed),
{
    let mut t = String::new();
    push_str(&mut t, "Host ");
    push_dec(&mut t, current_host as u64);
    push_str(&mut t, "/");
    push_dec(&mut t, total_hosts as u64);
    let mut l = Vec::new();
    push_owned(&mut l, t, Style::fg_if(color, Color::BrightBlack));
    push_span(&mut l, " | ", Style::plain());
    push_span(&mut l, host, Style::fg_if(color, Color::BrightWhite));
    push_span(&mut l, " | ", Style::plain());
    proof {
        reveal_strlit("ok");
        reveal_strlit("failed");
        reveal_strlit("skipped");
        reveal_strlit("unreachable");
    }
    if str_eq(status, "ok") && changed {
        push_span(&mut l, "changed", Style::fg_if(color, Color::Yellow));
    } else if str_eq(status, "ok") {
        push_span(&mut l, "ok", Style::fg_if(color, Color::Green));
    } else if str_eq(status, "failed") {
        push_span(&mut l, "failed", Style::bold_if(color, Color::Red));
    } else if str_eq(status, "skipped") {
        push_span(&mut l, "skipped", Style::fg_if(color, Color::Cyan));
    } else if str_eq(status, "unreachable") {
        push_span(&mut l, "unreachable", Style::bold_if(color, Color::Magenta));
    } else {
        push_span(&mut l, status, Style::plain());
    }
    proof {
        assert(line_view(l@) =~= host_result_line(color, host@, current_host as nat, total_hosts as nat, status@, changed));
    }
    l
}

/// The progress line; `pct` is the percentage of task runs finished as
/// shown (`62%`).
pub fn format_progress_line(color: bool, show_eta: bool, pct: &str, stats: &GlobalStats, eta: Option<Elapsed>) -> (l: Vec<Span>)
    requires
        eta matches Some(d) ==> d.wf(),
    ensures
        line_view(l@) == progress_line(color, show_eta, pct@, *stats, eta),
{
    let mut l = Vec::new();
    push_span(&mut l, "Progress: ", Style::plain());
    push_span(&mut l, pct, Style::bold_if(color, Color::BrightWhite));
    push_span(&mut l, " | ok: ", Style::plain());
    push_owned(&mut l, dec_string(stats.ok as u64), Style::fg_if(color, Color::Green));
    push_span(&mut l, " | changed: ", Style::plain());
    push_owned(&mut l, dec_string(stats.changed as u64), Style::fg_if(color, Color::Yellow));
    push_span(&mut l, " | failed: ", Style::plain());
    push_owned(&mut l, dec_string(stats.failed as u64), Style::fg_if(color, Color::Red));
    push_span(&mut l, " | skipped: ", Style::plain());
    push_owned(&mut l, dec_string(stats.skipped as u64), Style::fg_if(color, Color::Cyan));
    let mut e = String::new();
    match eta {
        Some(d) => {
            if show_eta {
                push_str(&mut e, " | ETA: ");
                let c = format_duration(&d);
                push_str(&mut e, c.as_str());
            }
        },
        None => {},
    }
    push_owned(&mut l, e, Style::fg_if(color, Color::BrightBlack));
    proof {
        assert(line_view(l@) =~= progress_line(color, show_eta, pct@, *stats, eta));
    }
    l
}

/// A host's recap line.
pub fn format_recap_line(color: bool, host: &str, stats: &HostStats) -> (l: Vec<Span>)
    ensures
        line_view(l@) == recap_line(color, host@, *stats),
{
    let st = if stats.failed > 0 || stats.unreachable > 0 {
        Style::bold(Color::Red)
    } else if stats.changed > 0 {
        Style::fg(Color::Yellow)
    } else {
        Style::fg(Color::Green)
    };
    let mut h = String::new();
    push_padded(&mut h, host, 30);
    let mut l = Vec::new();
    push_owned(&mut l, h, if color { st } else { Style::plain() });
    push_span(&mut l, " : ok=", Style::plain());
    push_owned(&mut l, dec_string(stats.ok as u64), Style::fg_if(color, Color::Green));
    push_span(&mut l, " changed=", Style::plain());
    push_owned(&mut l, dec_string(stats.changed as u64), Style::fg_if(color, Color::Yellow));
    push_span(&mut l, " failed=", Style::plain());
    push_owned(&mut l, dec_string(stats.failed as u64), Style::fg_if(color, Color::Red));
    push_span(&mut l, " skipped=", Style::plain());
    push_owned(&mut l, dec_string(stats.skipped as u64), Style::fg_if(color, Color::Cyan));
    proof {
        assert(line_view(l@) =~= recap_line(color, host@, *stats));
    }
    l
}

/// The summary lines: a blank line, then the totals and the duration.
pub fn format_summary(color: bool, stats: &GlobalStats, duration: &Elapsed) -> (out: Vec<Vec<Span>>)
    requires
        duration.wf(),
    ensures
        lines_view(out@) == seq![Seq::<SpanView>::empty(), summary_line(color, *stats, duration.secs_of())],
{
    let mut l = Vec::new();
    push_span(&mut l, "Total: ", Style::plain());
    push_owned(&mut l, dec_string(stats.ok as u64), Style::bold_if(color, Color::Green));
    push_span(&mut l, " ok, ", Style::plain());
    push_owned(&mut l, dec_string(stats.changed as u64), Style::bold_if(color, Color::Yellow));
    push_span(&mut l, " changed, ", Style::plain());
    push_owned(&mut l, dec_string(stats.failed as u64), Style::bold_if(color, Color::Red));
    push_span(&mut l, " failed, ", Style::plain());
    push_owned(&mut l, dec_string(stats.skipped as u64), Style::bold_if(color, Color::Cyan));
    push_span(&mut l, " skipped in ", Style::plain());
    push_owned(&mut l, format_duration_human(duration), Style::bold_if(color, Color::BrightWhite));
    proof {
        assert(line_view(l@) =~= summary_line(color, *stats, duration.secs_of()));
    }
    let mut out: Vec<Vec<Span>> = Vec::new();
    push_line(&mut out, blank());
    push_line(&mut out, l);
    out
}


// ---------------------------------------------------------------------------
// The callback
// ---------------------------------------------------------------------------

/// A host with nothing counted.
pub open spec fn zero_stats() -> HostStats {
    HostStats { ok: 0, changed: 0, failed: 0, skipped: 0, unreachable: 0 }
}

/// The counts of `host`, zero if it has none.
pub open spec fn stats_of(m: Map<Seq<char>, HostStats>, host: Seq<char>) -> HostStats {
    if m.contains_key(host) {
        m[host]
    } else {
        zero_stats()
    }
}

/// A host's counts after a finished task: skip first, then failure, then
/// change.
pub open spec fn counted(s: HostStats, skipped: bool, success: bool, changed: bool) -> HostStats {
    if skipped {
        HostStats { skipped: wrap_inc(s.skipped), ..s }
    } else if !success {
        HostStats { failed: wrap_inc(s.failed), ..s }
    } else if changed {
        HostStats { changed: wrap_inc(s.changed), ..s }
    } else {
        HostStats { ok: wrap_inc(s.ok), ..s }
    }
}

/// A finished task counts once, under its own kind: a skipped task as
/// skipped, else a task that did not succeed as failed, else a changed one
/// as changed, else as ok; the other counts stay as they were.
pub proof fn lemma_count_result(s: HostStats, skipped: bool, success: bool, changed: bool)
    requires
        s.ok < u32::MAX,
        s.changed < u32::MAX,
        s.failed < u32::MAX,
        s.skipped < u32::MAX,
    ensures
        counted(s, skipped, success, changed).skipped == s.skipped + if skipped { 1int } else { 0int },
        counted(s, skipped, success, changed).failed == s.failed + if !skipped && !success { 1int } else { 0int },
        counted(s, skipped, success, changed).changed == s.changed + if !skipped && success && changed { 1int } else { 0int },
        counted(s, skipped, success, changed).ok == s.ok + if !skipped && success && !changed { 1int } else { 0int },
        counted(s, skipped, success, changed).unreachable == s.unreachable,
{
}

/// The global counts after a finished task.
pub open spec fn counted_global(g: GlobalStats, skipped: bool, success: bool, changed: bool) -> GlobalStats {
    if skipped {
        GlobalStats { skipped: wrap_inc(g.skipped), ..g }
    } else if !success {
        GlobalStats { failed: wrap_inc(g.failed), ..g }
    } else if changed {
        GlobalStats { changed: wrap_inc(g.changed), ..g }
    } else {
        GlobalStats { ok: wrap_inc(g.ok), ..g }
    }
}

/// In the totals, a finished task counts once, under its own kind: a skipped task as
/// skipped, else a task that did not succeed as failed, else a changed one
/// as changed, else as ok; the other counts stay as they were.
pub proof fn lemma_count_global(s: GlobalStats, skipped: bool, success: bool, changed: bool)
    requires
        s.ok < u32::MAX,
        s.changed < u32::MAX,
        s.failed < u32::MAX,
        s.skipped < u32::MAX,
    ensures
        counted_global(s, skipped, success, changed).skipped == s.skipped + if skipped { 1int } else { 0int },
        counted_global(s, skipped, success, changed).failed == s.failed + if !skipped && !success { 1int } else { 0int },
        counted_global(s, skipped, success, changed).changed == s.changed + if !skipped && success && changed { 1int } else { 0int },
        counted_global(s, skipped, success, changed).ok == s.ok + if !skipped && success && !changed { 1int } else { 0int },
        counted_global(s, skipped, success, changed).unreachable == s.unreachable,
{
}

/// A finished task's status word: `skipped` when skipped, else `failed`
/// when it did not succeed, else `ok`.
pub proof fn lemma_status_word(skipped: bool, success: bool)
    ensures
        skipped ==> status_word(skipped, success) == "skipped"@,
        !skipped && !success ==> status_word(skipped, success) == "failed"@,
        !skipped && success ==> status_word(skipped, success) == "ok"@,
{
}

/// One more, wrapping around at the top of `usize`.
pub open spec fn wrap_inc_usize(x: usize) -> usize {
    if x == usize::MAX {
        0
    } else {
        (x + 1) as usize
    }
}

/// The runs of the play not finished yet.
pub open spec fn remaining_runs(p: ProgressState) -> int {
    if total_runs(p) > done_runs(p) {
        total_runs(p) - done_runs(p)
    } else {
        0
    }
}

/// The time left: the average of the durations times the runs left, when
/// there are durations and the play has tasks and hosts.
pub open spec fn eta_of(p: ProgressState, durations: Seq<Elapsed>) -> Option<Elapsed> {
    if durations.len() == 0 || p.total_tasks == 0 || p.total_hosts == 0 {
        None
    } else {
        Some(Elapsed { nanos: ((nanos_sum(durations) / (durations.len() as int)) * remaining_runs(p)) as u128 })
    }
}

/// The time left can be computed without leaving the ranges of the types.
pub open spec fn eta_ok(p: ProgressState, durations: Seq<Elapsed>) -> bool {
    &&& nanos_sum(durations) <= crate::types::max_elapsed_nanos()
    &&& durations.len() <= u32::MAX
    &&& total_runs(p) <= usize::MAX
    &&& done_runs(p) <= usize::MAX
    &&& total_runs(p) - done_runs(p) <= u32::MAX
    &&& durations.len() > 0 ==> (nanos_sum(durations) / (durations.len() as int)) * remaining_runs(p) <= crate::types::max_elapsed_nanos()
}

/// What a finished task shows: lines, and whether the progress line is due
/// (all hosts finished the task).
#[derive(Debug)]
pub struct CounterOutput {
    pub lines: Vec<Vec<Span>>,
    pub progress_due: bool,
}

/// Callback that shows progress counters.
#[derive(Debug)]
pub struct CounterCallback {
    config: CounterConfig,
    host_stats: HostTable<HostStats>,
    global: GlobalStats,
    progress: ProgressState,
    timing: TaskTiming,
    started: bool,
    playbook_name: Option<String>,
    failures: bool,
    task_started: bool,
}

impl CounterCallback {
    /// The table of counts is well formed.
    pub closed spec fn wf(&self) -> bool {
        self.host_stats.wf()
    }

    /// The configuration.
    pub closed spec fn spec_config(&self) -> CounterConfig {
        self.config
    }

    /// The counts per host.
    pub closed spec fn stats(&self) -> Map<Seq<char>, HostStats> {
        self.host_stats@
    }

    /// The counts over all hosts.
    pub closed spec fn global(&self) -> GlobalStats {
        self.global
    }

    /// Where the run is.
    pub closed spec fn spec_progress(&self) -> ProgressState {
        self.progress
    }

    /// The durations of finished tasks.
    pub closed spec fn durations(&self) -> Seq<Elapsed> {
        self.timing.completed_durations@
    }

    /// Whether something failed.
    pub closed spec fn spec_failures(&self) -> bool {
        self.failures
    }

    /// Whether a playbook started.
    pub closed spec fn spec_started(&self) -> bool {
        self.started
    }

    /// Whether a task started (its duration is then recorded).
    pub closed spec fn spec_task_started(&self) -> bool {
        self.task_started
    }

    /// A counter callback with the default configuration; colors are off
    /// when `no_color` (`NO_COLOR` is set).
    pub fn new(no_color: bool) -> (c: Self)
        ensures
            c.wf(),
            c.spec_config().verbose,
            c.spec_config().show_eta,
            c.spec_config().use_color == !no_color,
            c.stats() == Map::<Seq<char>, HostStats>::empty(),
    {
        Self::with_config(CounterConfig::default(), no_color)
    }

    /// A counter callback with the given configuration; colors are off when
    /// `no_color` (`NO_COLOR` is set).
    pub fn with_config(config: CounterConfig, no_color: bool) -> (c: Self)
        ensures
            c.wf(),
            c.spec_config() == (CounterConfig { use_color: config.use_color && !no_color, ..config }),
            c.stats() == Map::<Seq<char>, HostStats>::empty(),
            c.global() == (GlobalStats { ok: 0, changed: 0, failed: 0, skipped: 0, unreachable: 0 }),
            c.durations().len() == 0,
            c.spec_progress().total_tasks == 0,
            c.spec_progress().current_task == 0,
            c.spec_progress().total_hosts == 0,
            c.spec_progress().hosts_completed_for_task == 0,
            !c.spec_failures(),
            !c.spec_started(),
            !c.spec_task_started(),
    {
        CounterCallback {
            config: CounterConfig { use_color: config.use_color && !no_color, ..config },
            host_stats: HostTable::new(),
            global: GlobalStats { ok: 0, changed: 0, failed: 0, skipped: 0, unreachable: 0 },
            progress: ProgressState::new(),
            timing: TaskTiming::new(),
            started: false,
            playbook_name: None,
            failures: false,
            task_started: false,
        }
    }

    /// A counter callback with the given verbosity and ETA settings.
    pub fn with_options(verbose: bool, show_eta: bool, no_color: bool) -> (c: Self)
        ensures
            c.wf(),
            c.spec_config().verbose == verbose,
            c.spec_config().show_eta == show_eta,
            c.spec_config().use_color == !no_color,
            c.spec_config().total_tasks is None,
    {
        Self::with_config(CounterConfig { verbose, show_eta, ..CounterConfig::default() }, no_color)
    }

    /// The configuration.
    pub fn config(&self) -> (c: CounterConfig)
        ensures
            c == self.spec_config(),
    {
        self.config
    }

    /// Whether something failed.
    pub fn has_failures(&self) -> (b: bool)
        ensures
            b == self.spec_failures(),
    {
        self.failures
    }

    /// The counts over all hosts.
    pub fn global_stats(&self) -> (g: GlobalStats)
        ensures
            g == self.global(),
    {
        self.global
    }

    /// The counts of `host`, if it has any.
    pub fn host_stats(&self, host: &str) -> (r: Option<HostStats>)
        requires
            self.wf(),
        ensures
            r == if self.stats().contains_key(host@) {
                Some(self.stats()[host@])
            } else {
                None::<HostStats>
            },
    {
        self.host_stats.get(host)
    }

    /// The known number of tasks of the play.
    pub fn total_tasks(&self) -> (n: usize)
        ensures
            n == self.spec_progress().total_tasks,
    {
        self.progress.total_tasks
    }

    /// The task runs of the play and those finished, for the percentage
    /// shown on the progress line.
    pub fn executions(&self) -> (r: (usize, usize))
        requires
            total_runs(self.spec_progress()) <= usize::MAX,
            done_runs(self.spec_progress()) <= usize::MAX,
        ensures
            r.0 == total_runs(self.spec_progress()),
            r.1 == done_runs(self.spec_progress()),
    {
        self.progress.executions()
    }

    /// A playbook starts: everything counted is reset.
    pub fn on_playbook_start(&mut self, name: &str) -> (out: Vec<Vec<Span>>)
        requires
            old(self).wf(),
        ensures
            final(self).wf(),
            final(self).spec_config() == old(self).spec_config(),
            final(self).stats() == Map::<Seq<char>, HostStats>::empty(),
            final(self).global() == (GlobalStats { ok: 0, changed: 0, failed: 0, skipped: 0, unreachable: 0 }),
            final(self).durations().len() == 0,
            final(self).spec_progress().current_task == 0,
            final(self).spec_progress().total_tasks == 0,
            final(self).spec_progress().total_hosts == 0,
            final(self).spec_progress().hosts_completed_for_task == 0,
            !final(self).spec_failures(),
            final(self).spec_started(),
            final(self).spec_task_started() == old(self).spec_task_started(),
            lines_view(out@) == seq![Seq::<SpanView>::empty()],
    {
        self.started = true;
        self.playbook_name = Some(name.to_owned());
        self.host_stats.clear();
        self.global = GlobalStats { ok: 0, changed: 0, failed: 0, skipped: 0, unreachable: 0 };
        self.timing = TaskTiming::new();
        self.progress = ProgressState::new();
        self.failures = false;
        let mut out: Vec<Vec<Span>> = Vec::new();
        push_line(&mut out, blank());
        out
    }

    /// A play starts: its hosts get counts where they have none, and the
    /// progress restarts for its hosts.
    pub fn on_play_start(&mut self, name: &str, hosts: &Vec<String>) -> (out: Vec<Vec<Span>>)
        requires
            old(self).wf(),
        ensures
            final(self).wf(),
            final(self).spec_config() == old(self).spec_config(),
            final(self).global() == old(self).global(),
            final(self).durations() == old(self).durations(),
            final(self).spec_failures() == old(self).spec_failures(),
            final(self).spec_started() == old(self).spec_started(),
            final(self).spec_progress().total_hosts == hosts@.len(),
            final(self).spec_progress().current_task == 0,
            final(self).spec_progress().hosts_completed_for_task == 0,
            final(self).spec_progress().total_tasks == old(self).spec_progress().total_tasks,
            final(self).spec_progress().current_play_name@ == name@,
            final(self).spec_progress().current_task_name@ == old(self).spec_progress().current_task_name@,
            forall|k: Seq<char>| #[trigger] final(self).stats().contains_key(k) <==> (old(self).stats().contains_key(k)
                || views(hosts@).contains(k)),
            forall|k: Seq<char>| #[trigger] final(self).stats().contains_key(k) ==> final(self).stats()[k] == stats_of(
                old(self).stats(),
                k,
            ),
            lines_view(out@) == seq![starred(old(self).spec_config().use_color, "PLAY ["@ + name@ + "]"@, Color::Magenta), Seq::<SpanView>::empty()],
    {
        let mut i: usize = 0;
        while i < hosts.len()
            invariant
                i <= hosts.len(),
                self.wf(),
                self.config == old(self).config,
                self.global == old(self).global,
                self.timing == old(self).timing,
                self.failures == old(self).failures,
                self.started == old(self).started,
                self.progress == old(self).progress,
                forall|k: Seq<char>| #[trigger] self.stats().contains_key(k) <==> (old(self).stats().contains_key(k)
                    || views(hosts@.subrange(0, i as int)).contains(k)),
                forall|k: Seq<char>| #[trigger] self.stats().contains_key(k) ==> self.stats()[k] == stats_of(
                    old(self).stats(),
                    k,
                ),
            decreases hosts.len() - i,
        {
            let ghost before = self.stats();
            self.host_stats.ensure(hosts[i].as_str(), HostStats { ok: 0, changed: 0, failed: 0, skipped: 0, unreachable: 0 });
            proof {
                let k0 = hosts@[i as int]@;
                assert forall|k: Seq<char>| #[trigger] self.stats().contains_key(k) implies self.stats()[k] == stats_of(
                    old(self).stats(),
                    k,
                ) by {
                    if before.contains_key(k) {
                        assert(self.stats()[k] == before[k]);
                    } else {
                        assert(k == k0);
                    }
                }
                let prev = views(hosts@.subrange(0, i as int));
                let cur = views(hosts@.subrange(0, i + 1));
                assert(cur =~= prev.push(hosts@[i as int]@));
                assert forall|k: Seq<char>| cur.contains(k) <==> (prev.contains(k) || k == hosts@[i as int]@) by {
                    if cur.contains(k) {
                        let j = choose|j: int| 0 <= j < cur.len() && cur[j] == k;
                        if j < prev.len() {
                            assert(prev[j] == k);
                        }
                    }
                    if prev.contains(k) {
                        let j = choose|j: int| 0 <= j < prev.len() && prev[j] == k;
                        assert(cur[j] == k);
                    }
                    if k == hosts@[i as int]@ {
                        assert(cur[i as int] == k);
                    }
                }
            }
            i = i + 1;
        }
        proof {
            assert(hosts@.subrange(0, i as int) =~= hosts@);
            assert(views(hosts@.subrange(0, i as int)) == views(hosts@));
            assert forall|k: Seq<char>| #[trigger] self.stats().contains_key(k) <==> (old(self).stats().contains_key(k)
                || views(hosts@).contains(k)) by {
                assert(views(hosts@.subrange(0, i as int)).contains(k) == views(hosts@).contains(k));
            }
        }
        let ghost mid = self.stats();
        self.progress.current_play_name = name.to_owned();
        self.progress.total_hosts = hosts.len();
        self.progress.current_task = 0;
        self.progress.hosts_completed_for_task = 0;
        proof {
            assert(self.stats() == mid);
        }
        let mut out: Vec<Vec<Span>> = Vec::new();
        push_line(&mut out, format_play_header(self.config.use_color, name));
        push_line(&mut out, blank());
        out
    }

    /// A play ends: a blank line.
    pub fn on_play_end(&self, name: &str, success: bool) -> (out: Vec<Vec<Span>>)
        ensures
            lines_view(out@) == seq![Seq::<SpanView>::empty()],
    {
        let mut out: Vec<Vec<Span>> = Vec::new();
        push_line(&mut out, blank());
        out
    }

    /// A task starts: a new task is counted and its header shown with its
    /// position (out of the known total, or the count so far).
    pub fn on_task_start(&mut self, name: &str, host: &str) -> (out: Vec<Vec<Span>>)
        requires
            old(self).wf(),
        ensures
            final(self).wf(),
            final(self).spec_config() == old(self).spec_config(),
            final(self).stats() == old(self).stats(),
            final(self).global() == old(self).global(),
            final(self).durations() == old(self).durations(),
            final(self).spec_failures() == old(self).spec_failures(),
            final(self).spec_started() == old(self).spec_started(),
            final(self).spec_task_started(),
            final(self).spec_progress().current_task_name@ == name@,
            final(self).spec_progress().total_tasks == old(self).spec_progress().total_tasks,
            final(self).spec_progress().total_hosts == old(self).spec_progress().total_hosts,
            old(self).spec_progress().current_task_name@ == name@ ==> lines_view(out@).len() == 0
                && final(self).spec_progress().current_task == old(self).spec_progress().current_task
                && final(self).spec_progress().hosts_completed_for_task == old(self).spec_progress().hosts_completed_for_task,
            old(self).spec_progress().current_task_name@ != name@ ==> {
                let n = wrap_inc_usize(old(self).spec_progress().current_task);
                let total = if old(self).spec_progress().total_tasks > 0 { old(self).spec_progress().total_tasks } else { n };
                &&& final(self).spec_progress().current_task == n
                &&& final(self).spec_progress().hosts_completed_for_task == 0
                &&& lines_view(out@) == seq![starred(
                    old(self).spec_config().use_color,
                    "TASK ["@ + name@ + "] ("@ + dec(n as nat) + "/"@ + dec(total as nat) + ")"@,
                    Color::Cyan,
                )]
            },
    {
        let mut out: Vec<Vec<Span>> = Vec::new();
        if !str_eq(self.progress.current_task_name.as_str(), name) {
            self.progress.current_task = if self.progress.current_task == usize::MAX { 0 } else { self.progress.current_task + 1 };
            self.progress.current_task_name = name.to_owned();
            self.progress.hosts_completed_for_task = 0;
            let total = if self.progress.total_tasks > 0 { self.progress.total_tasks } else { self.progress.current_task };
            push_line(&mut out, format_task_header(self.config.use_color, name, self.progress.current_task, total));
        } else {
            proof {
                assert(lines_view(out@) =~= Seq::<Seq<SpanView>>::empty());
            }
        }
        self.task_started = true;
        out
    }
}


/// The recap lines of the hosts `hs`.
pub open spec fn recap_lines(color: bool, hs: Seq<Seq<char>>, m: Map<Seq<char>, HostStats>) -> Seq<Seq<SpanView>> {
    Seq::new(hs.len(), |i: int| recap_line(color, hs[i], m[hs[i]]))
}

/// The status word of a finished task.
pub open spec fn status_word(skipped: bool, success: bool) -> Seq<char> {
    if skipped {
        "skipped"@
    } else if !success {
        "failed"@
    } else {
        "ok"@
    }
}

/// The line of the message of a failure.
pub open spec fn failure_message_line(color: bool, message: Seq<char>) -> Seq<SpanView> {
    seq![
        ("  "@, plain_style()),
        ("=>"@, styled(color, color_style(Color::Red))),
        (" "@, plain_style()),
        (message, styled(color, color_style(Color::BrightRed))),
    ]
}

impl CounterCallback {
    /// A task finished on a host: it is counted for the host and overall, a
    /// failure is noted, the host is one more that finished the task, and
    /// `task_elapsed` (the time since the task started) is recorded once a
    /// task started. When verbose a line per host is shown, with a
    /// failure's message; the progress line is due once all hosts finished
    /// the task.
    pub fn on_task_complete(&mut self, result: &ExecutionResult, task_elapsed: Elapsed) -> (out: CounterOutput)
        requires
            old(self).wf(),
        ensures
            final(self).wf(),
            final(self).spec_config() == old(self).spec_config(),
            final(self).spec_started() == old(self).spec_started(),
            final(self).spec_task_started() == old(self).spec_task_started(),
            final(self).stats() == old(self).stats().insert(
                result.host@,
                counted(stats_of(old(self).stats(), result.host@), result.result.skipped, result.result.success, result.result.changed),
            ),
            final(self).global() == counted_global(old(self).global(), result.result.skipped, result.result.success, result.result.changed),
            final(self).spec_failures() == (old(self).spec_failures() || (!result.result.skipped && !result.result.success)),
            final(self).spec_progress() == (ProgressState {
                hosts_completed_for_task: wrap_inc_usize(old(self).spec_progress().hosts_completed_for_task),
                ..old(self).spec_progress()
            }),
            final(self).durations() == if old(self).spec_task_started() {
                old(self).durations().push(task_elapsed)
            } else {
                old(self).durations()
            },
            out.progress_due == (wrap_inc_usize(old(self).spec_progress().hosts_completed_for_task) == old(self).spec_progress().total_hosts),
            lines_view(out.lines@) == if old(self).spec_config().verbose {
                seq![host_result_line(
                    old(self).spec_config().use_color,
                    result.host@,
                    wrap_inc_usize(old(self).spec_progress().hosts_completed_for_task) as nat,
                    old(self).spec_progress().total_hosts as nat,
                    status_word(result.result.skipped, result.result.success),
                    result.result.changed,
                )] + if !result.result.skipped && !result.result.success && result.result.message@.len() > 0 {
                    seq![failure_message_line(old(self).spec_config().use_color, result.result.message@)]
                } else {
                    Seq::<Seq<SpanView>>::empty()
                }
            } else {
                Seq::<Seq<SpanView>>::empty()
            },
    {
        let host = result.host.as_str();
        let r = &result.result;
        let cur = match self.host_stats.get(host) {
            Some(st) => st,
            None => HostStats { ok: 0, changed: 0, failed: 0, skipped: 0, unreachable: 0 },
        };
        let g = self.global;
        let status: &str;
        if r.skipped {
            self.host_stats.set(host, HostStats { skipped: inc(cur.skipped), ..cur });
            self.global = GlobalStats { skipped: inc(g.skipped), ..g };
            status = "skipped";
        } else if !r.success {
            self.host_stats.set(host, HostStats { failed: inc(cur.failed), ..cur });
            self.global = GlobalStats { failed: inc(g.failed), ..g };
            self.failures = true;
            status = "failed";
        } else if r.changed {
            self.host_stats.set(host, HostStats { changed: inc(cur.changed), ..cur });
            self.global = GlobalStats { changed: inc(g.changed), ..g };
            status = "ok";
        } else {
            self.host_stats.set(host, HostStats { ok: inc(cur.ok), ..cur });
            self.global = GlobalStats { ok: inc(g.ok), ..g };
            status = "ok";
        }
        let ghost after_stats = self.stats();
        self.progress.hosts_completed_for_task = if self.progress.hosts_completed_for_task == usize::MAX {
            0
        } else {
            self.progress.hosts_completed_for_task + 1
        };
        let current_host = self.progress.hosts_completed_for_task;
        let total_hosts = self.progress.total_hosts;
        if self.task_started {
            self.timing.record_duration(task_elapsed);
        }
        proof {
            assert(self.stats() == after_stats);
            reveal_strlit("skipped");
            reveal_strlit("failed");
            reveal_strlit("ok");
            assert(status@ == status_word(r.skipped, r.success));
        }
        let mut lines: Vec<Vec<Span>> = Vec::new();
        if self.config.verbose {
            let color = self.config.use_color;
            push_line(&mut lines, format_host_result(color, host, current_host, total_hosts, status, r.changed));
            let ghost head = lines_view(lines@);
            if !r.skipped && !r.success && !r.message.as_str().is_empty() {
                let mut l = Vec::new();
                push_span(&mut l, "  ", Style::plain());
                push_span(&mut l, "=>", Style::fg_if(color, Color::Red));
                push_span(&mut l, " ", Style::plain());
                push_span(&mut l, r.message.as_str(), Style::fg_if(color, Color::BrightRed));
                proof {
                    assert(line_view(l@) =~= failure_message_line(color, r.message@));
                }
                push_line(&mut lines, l);
            } else {
                proof {
                    assert(lines_view(lines@) =~= head + Seq::<Seq<SpanView>>::empty());
                }
            }
        } else {
            proof {
                assert(lines_view(lines@) =~= Seq::<Seq<SpanView>>::empty());
            }
        }
        CounterOutput { lines, progress_due: current_host == total_hosts }
    }

    /// The time left, when it can be estimated.
    pub fn eta(&self) -> (r: Option<Elapsed>)
        requires
            eta_ok(self.spec_progress(), self.durations()),
        ensures
            r == eta_of(self.spec_progress(), self.durations()),
            r matches Some(d) ==> d.wf(),
    {
        let avg = self.timing.average_duration();
        proof {
            if self.durations().len() > 0 {
                crate::plugins::counter::lemma_nanos_sum_nonneg(self.durations());
            }
        }
        self.progress.eta(avg)
    }

    /// The progress line and a blank line; `pct` is the percentage of task
    /// runs finished as shown (`62%`).
    pub fn progress_lines(&self, pct: &str) -> (out: Vec<Vec<Span>>)
        requires
            eta_ok(self.spec_progress(), self.durations()),
        ensures
            lines_view(out@) == seq![
                progress_line(
                    self.spec_config().use_color,
                    self.spec_config().show_eta,
                    pct@,
                    self.global(),
                    eta_of(self.spec_progress(), self.durations()),
                ),
                Seq::<SpanView>::empty(),
            ],
    {
        let eta = self.eta();
        let mut out: Vec<Vec<Span>> = Vec::new();
        push_line(&mut out, format_progress_line(self.config.use_color, self.config.show_eta, pct, &self.global, eta));
        push_line(&mut out, blank());
        out
    }

    /// A handler was notified.
    pub fn on_handler_triggered(&self, name: &str) -> (out: Vec<Vec<Span>>)
        ensures
            lines_view(out@) == seq![seq![
                ("HANDLER"@, styled(self.spec_config().use_color, bold_style(Color::Yellow))),
                (": "@, plain_style()),
                (name@, styled(self.spec_config().use_color, color_style(Color::BrightWhite))),
            ]],
    {
        let color = self.config.use_color;
        let mut l = Vec::new();
        push_span(&mut l, "HANDLER", Style::bold_if(color, Color::Yellow));
        push_span(&mut l, ": ", Style::plain());
        push_span(&mut l, name, Style::fg_if(color, Color::BrightWhite));
        proof {
            assert(line_view(l@) =~= seq![
                ("HANDLER"@, styled(color, bold_style(Color::Yellow))),
                (": "@, plain_style()),
                (name@, styled(color, color_style(Color::BrightWhite))),
            ]);
        }
        let mut out: Vec<Vec<Span>> = Vec::new();
        push_line(&mut out, l);
        out
    }

    /// Facts were gathered for a host: shown when verbose.
    pub fn on_facts_gathered(&self, host: &str) -> (out: Vec<Vec<Span>>)
        ensures
            lines_view(out@) == if self.spec_config().verbose {
                seq![seq![
                    ("FACTS"@, styled(self.spec_config().use_color, color_style(Color::BrightBlack))),
                    (" "@, plain_style()),
                    (host@, styled(self.spec_config().use_color, color_style(Color::BrightWhite))),
                    (" | "@, plain_style()),
                    ("gathered"@, styled(self.spec_config().use_color, color_style(Color::Green))),
                ]]
            } else {
                Seq::<Seq<SpanView>>::empty()
            },
    {
        let mut out: Vec<Vec<Span>> = Vec::new();
        if self.config.verbose {
            let color = self.config.use_color;
            let mut l = Vec::new();
            push_span(&mut l, "FACTS", Style::fg_if(color, Color::BrightBlack));
            push_span(&mut l, " ", Style::plain());
            push_span(&mut l, host, Style::fg_if(color, Color::BrightWhite));
            push_span(&mut l, " | ", Style::plain());
            push_span(&mut l, "gathered", Style::fg_if(color, Color::Green));
            proof {
                assert(line_view(l@) =~= seq![
                    ("FACTS"@, styled(color, color_style(Color::BrightBlack))),
                    (" "@, plain_style()),
                    (host@, styled(color, color_style(Color::BrightWhite))),
                    (" | "@, plain_style()),
                    ("gathered"@, styled(color, color_style(Color::Green))),
                ]);
            }
            push_line(&mut out, l);
        } else {
            proof {
                assert(lines_view(out@) =~= Seq::<Seq<SpanView>>::empty());
            }
        }
        out
    }

    /// The playbook ended: the recap in host order, and once a playbook
    /// started the summary with `elapsed` (how long it took) and how it
    /// ended.
    pub fn on_playbook_end(&self, name: &str, success: bool, elapsed: &Elapsed) -> (out: Vec<Vec<Span>>)
        requires
            self.wf(),
            elapsed.wf(),
        ensures
            lines_view(out@) == seq![Seq::<SpanView>::empty(), starred(self.spec_config().use_color, "RECAP"@, Color::BrightWhite)]
                + recap_lines(self.spec_config().use_color, sorted_keys(self.stats()), self.stats()) + if self.spec_started() {
                seq![
                    Seq::<SpanView>::empty(),
                    summary_line(self.spec_config().use_color, self.global(), elapsed.secs_of()),
                    Seq::<SpanView>::empty(),
                    seq![
                        ("Playbook '"@, plain_style()),
                        (name@, styled(self.spec_config().use_color, color_style(Color::BrightWhite))),
                        ("' "@, plain_style()),
                        if success {
                            ("completed successfully"@, styled(self.spec_config().use_color, bold_style(Color::Green)))
                        } else {
                            ("failed"@, styled(self.spec_config().use_color, bold_style(Color::Red)))
                        },
                    ],
                ]
            } else {
                Seq::<Seq<SpanView>>::empty()
            },
    {
        let color = self.config.use_color;
        let ghost m = self.stats();
        let mut out: Vec<Vec<Span>> = Vec::new();
        push_line(&mut out, blank());
        let l0 = starred_line(color, "RECAP".to_owned(), Color::BrightWhite);
        push_line(&mut out, l0);
        let ghost head = lines_view(out@);
        proof {
            self.host_stats.lemma_view();
        }
        let hosts = self.host_stats.sorted_names();
        let ghost hs = views(hosts@);
        proof {
            lemma_sorted_keys(hs, m);
            assert(recap_lines(color, hs.subrange(0, 0), m) =~= Seq::<Seq<SpanView>>::empty());
        }
        let mut i: usize = 0;
        while i < hosts.len()
            invariant
                self.wf(),
                m == self.stats(),
                color == self.spec_config().use_color,
                hs == views(hosts@),
                hs.len() == hosts@.len(),
                forall|k: Seq<char>| m.contains_key(k) <==> hs.contains(k),
                i <= hosts.len(),
                lines_view(out@) == head + recap_lines(color, hs.subrange(0, i as int), m),
            decreases hosts.len() - i,
        {
            let h = hosts[i].as_str();
            proof {
                assert(hs[i as int] == h@);
                assert(hs.contains(h@));
            }
            let st = self.host_stats.get(h).unwrap();
            push_line(&mut out, format_recap_line(color, h, &st));
            proof {
                assert(recap_lines(color, hs.subrange(0, i + 1), m) =~= recap_lines(color, hs.subrange(0, i as int), m).push(
                    recap_line(color, h@, m[h@]),
                ));
                assert(lines_view(out@) =~= head + recap_lines(color, hs.subrange(0, i + 1), m));
            }
            i = i + 1;
        }
        proof {
            assert(hs.subrange(0, i as int) =~= hs);
        }
        let ghost mid = lines_view(out@);
        if self.started {
            append_lines(&mut out, format_summary(color, &self.global, elapsed));
            push_line(&mut out, blank());
            let mut l = Vec::new();
            push_span(&mut l, "Playbook '", Style::plain());
            push_span(&mut l, name, Style::fg_if(color, Color::BrightWhite));
            push_span(&mut l, "' ", Style::plain());
            if success {
                push_span(&mut l, "completed successfully", Style::bold_if(color, Color::Green));
            } else {
                push_span(&mut l, "failed", Style::bold_if(color, Color::Red));
            }
            proof {
                assert(line_view(l@) =~= seq![
                    ("Playbook '"@, plain_style()),
                    (name@, styled(color, color_style(Color::BrightWhite))),
                    ("' "@, plain_style()),
                    if success {
                        ("completed successfully"@, styled(color, bold_style(Color::Green)))
                    } else {
                        ("failed"@, styled(color, bold_style(Color::Red)))
                    },
                ]);
            }
            push_line(&mut out, l);
        } else {
            proof {
                assert(lines_view(out@) =~= mid + Seq::<Seq<SpanView>>::empty());
            }
        }
        proof {
            reveal_strlit("RECAP");
        }
        out
    }
}

/// Builds a counter callback step by step.
#[derive(Clone, Copy, Debug)]
pub struct CounterCallbackBuilder {
    pub config: CounterConfig,
}

impl CounterCallbackBuilder {
    /// A builder with the default configuration.
    pub fn new() -> (b: Self)
        ensures
            b.config.verbose,
            b.config.show_eta,
            b.config.use_color,
            b.config.total_tasks is None,
    {
        CounterCallbackBuilder { config: CounterConfig::default() }
    }

    /// Sets whether a line per host is shown.
    pub fn verbose(self, verbose: bool) -> (b: Self)
        ensures
            b.config == (CounterConfig { verbose, ..self.config }),
    {
        CounterCallbackBuilder { config: CounterConfig { verbose, ..self.config } }
    }

    /// Sets whether the time left is shown.
    pub fn show_eta(self, show_eta: bool) -> (b: Self)
        ensures
            b.config == (CounterConfig { show_eta, ..self.config }),
    {
        CounterCallbackBuilder { config: CounterConfig { show_eta, ..self.config } }
    }

    /// Sets whether colors are used.
    pub fn use_color(self, use_color: bool) -> (b: Self)
        ensures
            b.config == (CounterConfig { use_color, ..self.config }),
    {
        CounterCallbackBuilder { config: CounterConfig { use_color, ..self.config } }
    }

    /// Sets the known number of tasks.
    pub fn total_tasks(self, total: usize) -> (b: Self)
        ensures
            b.config == (CounterConfig { total_tasks: Some(total), ..self.config }),
    {
        CounterCallbackBuilder { config: CounterConfig { total_tasks: Some(total), ..self.config } }
    }

    /// The callback (colors off when `no_color`, `NO_COLOR` being set); a
    /// known number of tasks is the play's total.
    pub fn build(self, no_color: bool) -> (c: CounterCallback)
        ensures
            c.wf(),
            c.spec_config() == (CounterConfig { use_color: self.config.use_color && !no_color, ..self.config }),
            c.spec_progress().total_tasks == match self.config.total_tasks {
                Some(t) => t,
                None => 0,
            },
    {
        let mut c = CounterCallback::with_config(self.config, no_color);
        match self.config.total_tasks {
            Some(t) => {
                c.progress.total_tasks = t;
            },
            None => {},
        }
        c
    }
}

} // verus!
