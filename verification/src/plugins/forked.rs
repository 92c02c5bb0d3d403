//! The forked plugin: shows hosts running in parallel fork slots, each with
//! a progress bar on a terminal or a status line otherwise, and a recap
//! with each host's final state.
use vstd::prelude::*;
use crate::plugins::actionable::{lemma_sorted_keys, opt_chars, sorted_keys};
use crate::style::{
    append_lines, blank, bold_style, color_style, line_view, lines_view, plain_style, push_line, push_owned,
    push_span, single, text_of, Color, Span, SpanView, Style,
};
use crate::table::{views, HostTable};
use crate::text::{byte_len, dec, dec_string, push_dec, push_str, repeat_char, repeat_string, str_eq, utf8_len};
use crate::types::{inc, wrap_inc, ExecutionResult};

verus! {

/// Where a host is in the parallel run.
#[derive(Clone, Copy, Debug, PartialEq, Eq, Structural)]
pub enum HostState {
    /// Waiting.
    Pending,
    /// Running in a fork slot (0-based).
    Running { fork_slot: usize },
    /// Finished its task.
    Completed,
    /// Its task failed.
    Failed,
    /// Its task was skipped.
    Skipped,
    /// It could not be reached.
    Unreachable,
}

/// Task counts for one host, and the task it runs.
#[derive(Clone, Debug)]
pub struct HostStats {
    pub ok: u32,
    pub changed: u32,
    pub failed: u32,
    pub skipped: u32,
    pub unreachable: u32,
    /// The task the host runs now.
    pub current_task: Option<String>,
    /// Whether that task's start was recorded.
    pub task_started: bool,
}

/// The counts of a host: ok, changed, failed, skipped, unreachable.
pub open spec fn counts(s: HostStats) -> (u32, u32, u32, u32, u32) {
    (s.ok, s.changed, s.failed, s.skipped, s.unreachable)
}

/// A fork slot: the host in it, whether it has a progress bar, whether it
/// is taken.
#[derive(Debug)]
pub struct ForkSlot {
    pub host: Option<String>,
    pub has_bar: bool,
    pub active: bool,
}

/// The view of a fork slot.
pub type SlotView = (Option<Seq<char>>, bool, bool);

/// The view of a slot.
pub open spec fn slot_view(s: ForkSlot) -> SlotView {
    (opt_chars(s.host), s.has_bar, s.active)
}

/// The views of slots.
pub open spec fn slot_views(v: Seq<ForkSlot>) -> Seq<SlotView> {
    Seq::new(v.len(), |i: int| slot_view(v[i]))
}

/// A free slot.
pub open spec fn free_slot() -> SlotView {
    (None, false, false)
}

/// Configuration for the forked callback.
#[derive(Clone, Debug)]
pub struct ForkedConfig {
    /// Parallel fork slots.
    pub forks: usize,
    /// Progress bars on a terminal, or plain status lines.
    pub use_terminal_ui: bool,
    /// A progress bar per running host.
    pub show_host_progress: bool,
    /// The summary line.
    pub show_summary: bool,
    /// The template of a slot's progress bar.
    pub slot_template: String,
}

impl ForkedConfig {
    /// The default configuration, with terminal output where `is_terminal`.
    pub fn defaults(is_terminal: bool) -> (c: Self)
        ensures
            c.forks == 5,
            c.use_terminal_ui == is_terminal,
            c.show_host_progress,
            c.show_summary,
            c.slot_template@ == default_slot_template(),
    {
        ForkedConfig {
            forks: 5,
            use_terminal_ui: is_terminal,
            show_host_progress: true,
            show_summary: true,
            slot_template: "  {spinner:.green} [{prefix}] {msg:<15} [{bar:25.cyan/blue}] {percent:>3}%".to_owned(),
        }
    }
}

/// Whether standard output is a terminal (`IsTerminal::is_terminal` on
/// `std::io::stdout()`). The answer depends on how the process was started,
/// so nothing is claimed of it.
#[verifier::external_body]
fn stdout_is_terminal() -> (b: bool) {
    std::io::IsTerminal::is_terminal(&std::io::stdout())
}

/// The slot template of the default configuration.
pub open spec fn default_slot_template() -> Seq<char> {
    "  {spinner:.green} [{prefix}] {msg:<15} [{bar:25.cyan/blue}] {percent:>3}%"@
}

impl Default for ForkedConfig {
    /// The default configuration: the terminal UI is on exactly when
    /// standard output is a terminal.
    fn default() -> (c: Self)
        ensures
            c.forks == 5,
            c.show_host_progress,
            c.show_summary,
            c.slot_template@ == default_slot_template(),
    {
        Self::defaults(stdout_is_terminal())
    }
}

/// What to do to the progress bars of the fork slots.
#[derive(Debug)]
pub enum BarAction {
    /// Create the bar of a slot for a host (and the bar container if there
    /// is none yet).
    Create { slot: usize, host: String },
    /// Move a slot's bar to a position (percent) and show a message.
    Update { slot: usize, position: u64, message: Span },
    /// Finish and remove a slot's bar.
    Finish { slot: usize },
    /// Clear the bar container.
    ClearAll,
}

/// The view of a bar action.
pub enum BarView {
    Create(usize, Seq<char>),
    Update(usize, u64, SpanView),
    Finish(usize),
    ClearAll,
}

/// The view of a bar action.
pub open spec fn bar_view(a: BarAction) -> BarView {
    match a {
        BarAction::Create { slot, host } => BarView::Create(slot, host@),
        BarAction::Update { slot, position, message } => BarView::Update(slot, position, (message.text@, message.style)),
        BarAction::Finish { slot } => BarView::Finish(slot),
        BarAction::ClearAll => BarView::ClearAll,
    }
}

/// The views of bar actions.
pub open spec fn bar_views(v: Seq<BarAction>) -> Seq<BarView> {
    Seq::new(v.len(), |i: int| bar_view(v[i]))
}

/// What an event shows: lines, and progress bar changes.
#[derive(Debug)]
pub struct ForkedOutput {
    pub lines: Vec<Vec<Span>>,
    pub bars: Vec<BarAction>,
}

// ---------------------------------------------------------------------------
// Slots
// ---------------------------------------------------------------------------

/// `i` is the first slot satisfying `p`.
pub open spec fn first_where(s: Seq<SlotView>, p: spec_fn(SlotView) -> bool, i: int) -> bool {
    0 <= i < s.len() && p(s[i]) && forall|j: int| 0 <= j < i ==> !#[trigger] p(s[j])
}

/// The first slot satisfying `p`, if any.
pub open spec fn index_where(s: Seq<SlotView>, p: spec_fn(SlotView) -> bool) -> Option<int> {
    if exists|i: int| first_where(s, p, i) {
        Some(choose|i: int| first_where(s, p, i))
    } else {
        None
    }
}

/// A slot that is not taken.
pub open spec fn is_free() -> spec_fn(SlotView) -> bool {
    |v: SlotView| !v.2
}

/// A slot holding `host`.
pub open spec fn holds(host: Seq<char>) -> spec_fn(SlotView) -> bool {
    |v: SlotView| v.0 == Some(host)
}

/// A slot holding `host` without a progress bar.
pub open spec fn holds_bare(host: Seq<char>) -> spec_fn(SlotView) -> bool {
    |v: SlotView| v.0 == Some(host) && !v.1
}

/// There is one first slot satisfying `p`.
pub proof fn lemma_first_where_unique(s: Seq<SlotView>, p: spec_fn(SlotView) -> bool, i: int, k: int)
    requires
        first_where(s, p, i),
        first_where(s, p, k),
    ensures
        i == k,
{
    if i < k {
        assert(p(s[i]));
    } else if k < i {
        assert(p(s[k]));
    }
}

/// A first slot satisfying `p` is the one `index_where` finds.
pub proof fn lemma_index_where(s: Seq<SlotView>, p: spec_fn(SlotView) -> bool, i: int)
    requires
        first_where(s, p, i),
    ensures
        index_where(s, p) == Some(i),
{
    let c = choose|c: int| first_where(s, p, c);
    lemma_first_where_unique(s, p, i, c);
}

/// No slot satisfying `p` means `index_where` finds none.
pub proof fn lemma_index_where_none(s: Seq<SlotView>, p: spec_fn(SlotView) -> bool)
    requires
        forall|j: int| 0 <= j < s.len() ==> !#[trigger] p(s[j]),
    ensures
        index_where(s, p) is None,
{
    if exists|k: int| first_where(s, p, k) {
        let k = choose|k: int| first_where(s, p, k);
        assert(p(s[k]));
    }
}

/// The slots after `host` takes the first free one.
pub open spec fn allocated(s: Seq<SlotView>, host: Seq<char>) -> Seq<SlotView> {
    match index_where(s, is_free()) {
        Some(i) => s.update(i, (Some(host), s[i].1, true)),
        None => s,
    }
}

/// The slots after the first slot of `host` is freed.
pub open spec fn released(s: Seq<SlotView>, host: Seq<char>) -> Seq<SlotView> {
    match index_where(s, holds(host)) {
        Some(i) => s.update(i, free_slot()),
        None => s,
    }
}

/// The bar to finish when `host`'s slot is freed.
pub open spec fn release_bars(s: Seq<SlotView>, host: Seq<char>) -> Seq<BarView> {
    match index_where(s, holds(host)) {
        Some(i) => if s[i].1 { seq![BarView::Finish(i as usize)] } else { Seq::empty() },
        None => Seq::empty(),
    }
}

/// The bar update for `host`, when its first slot has a bar.
pub open spec fn update_bars(s: Seq<SlotView>, host: Seq<char>, position: u64, message: SpanView) -> Seq<BarView> {
    match index_where(s, holds(host)) {
        Some(i) => if s[i].1 { seq![BarView::Update(i as usize, position, message)] } else { Seq::empty() },
        None => Seq::empty(),
    }
}

/// The first free slot, if any.
fn find_free(slots: &Vec<ForkSlot>) -> (r: Option<usize>)
    ensures
        match r {
            Some(i) => index_where(slot_views(slots@), is_free()) == Some(i as int),
            None => index_where(slot_views(slots@), is_free()) is None,
        },
{
    let ghost sv = slot_views(slots@);
    let mut i: usize = 0;
    while i < slots.len()
        invariant
            i <= slots@.len(),
            sv == slot_views(slots@),
            forall|j: int| 0 <= j < i ==> !#[trigger] is_free()(sv[j]),
        decreases slots.len() - i,
    {
        proof {
            assert(sv[i as int] == slot_view(slots@[i as int]));
        }
        if !slots[i].active {
            proof {
                lemma_index_where(sv, is_free(), i as int);
            }
            return Some(i);
        }
        i = i + 1;
    }
    proof {
        lemma_index_where_none(sv, is_free());
    }
    None
}

/// The first slot of `host`, if any.
fn find_slot(slots: &Vec<ForkSlot>, host: &str) -> (r: Option<usize>)
    ensures
        match r {
            Some(i) => index_where(slot_views(slots@), holds(host@)) == Some(i as int),
            None => index_where(slot_views(slots@), holds(host@)) is None,
        },
{
    let ghost sv = slot_views(slots@);
    let mut i: usize = 0;
    while i < slots.len()
        invariant
            i <= slots@.len(),
            sv == slot_views(slots@),
            forall|j: int| 0 <= j < i ==> !#[trigger] holds(host@)(sv[j]),
        decreases slots.len() - i,
    {
        let hit = match &slots[i].host {
            Some(h) => str_eq(h.as_str(), host),
            None => false,
        };
        proof {
            assert(sv[i as int] == slot_view(slots@[i as int]));
        }
        if hit {
            proof {
                lemma_index_where(sv, holds(host@), i as int);
            }
            return Some(i);
        }
        i = i + 1;
    }
    proof {
        lemma_index_where_none(sv, holds(host@));
    }
    None
}

/// The first slot of `host` without a bar, if any.
fn find_bare_slot(slots: &Vec<ForkSlot>, host: &str) -> (r: Option<usize>)
    ensures
        match r {
            Some(i) => index_where(slot_views(slots@), holds_bare(host@)) == Some(i as int),
            None => index_where(slot_views(slots@), holds_bare(host@)) is None,
        },
{
    let ghost sv = slot_views(slots@);
    let mut i: usize = 0;
    while i < slots.len()
        invariant
            i <= slots@.len(),
            sv == slot_views(slots@),
            forall|j: int| 0 <= j < i ==> !#[trigger] holds_bare(host@)(sv[j]),
        decreases slots.len() - i,
    {
        let hit = match &slots[i].host {
            Some(h) => str_eq(h.as_str(), host) && !slots[i].has_bar,
            None => false,
        };
        proof {
            assert(sv[i as int] == slot_view(slots@[i as int]));
        }
        if hit {
            proof {
                lemma_index_where(sv, holds_bare(host@), i as int);
            }
            return Some(i);
        }
        i = i + 1;
    }
    proof {
        lemma_index_where_none(sv, holds_bare(host@));
    }
    None
}

// ---------------------------------------------------------------------------
// Lines
// ---------------------------------------------------------------------------

/// A status line in plain mode: `  host | task | status`.
pub open spec fn simple_status_line(host: Seq<char>, task: Seq<char>, status: SpanView) -> Seq<SpanView> {
    seq![
        ("  "@, plain_style()),
        (host, bold_style(Color::BrightWhite)),
        (" | "@, plain_style()),
        (task, color_style(Color::Yellow)),
        (" | "@, plain_style()),
        status,
    ]
}

/// The status of a finished task.
pub open spec fn status_span(skipped: bool, success: bool, changed: bool, message: Seq<char>) -> SpanView {
    if skipped {
        ("skipped"@, color_style(Color::Cyan))
    } else if !success {
        ("FAILED: "@ + message, color_style(Color::Red))
    } else if changed {
        ("changed"@, color_style(Color::Yellow))
    } else {
        ("ok"@, color_style(Color::Green))
    }
}

/// A finished task's status reads `skipped` when skipped, else `FAILED: `
/// and its message when it did not succeed, else `changed` or `ok`.
pub proof fn lemma_status_span(skipped: bool, success: bool, changed: bool, message: Seq<char>)
    ensures
        skipped ==> status_span(skipped, success, changed, message).0 == "skipped"@,
        !skipped && !success ==> status_span(skipped, success, changed, message).0 == "FAILED: "@ + message,
        !skipped && success && changed ==> status_span(skipped, success, changed, message).0 == "changed"@,
        !skipped && success && !changed ==> status_span(skipped, success, changed, message).0 == "ok"@,
{
}

/// The style of a host in the recap.
pub open spec fn recap_host_style(s: HostStats, state: HostState) -> Style {
    match state {
        HostState::Failed | HostState::Unreachable => bold_style(Color::Red),
        HostState::Completed => if s.changed > 0 { color_style(Color::Yellow) } else { color_style(Color::Green) },
        HostState::Skipped => color_style(Color::Cyan),
        _ => color_style(Color::White),
    }
}

/// The state marker of a host in the recap.
pub open spec fn state_marker(state: HostState) -> SpanView {
    match state {
        HostState::Failed => ("[FAILED]"@, bold_style(Color::Red)),
        HostState::Unreachable => ("[UNREACHABLE]"@, bold_style(Color::Magenta)),
        HostState::Skipped => ("[SKIPPED]"@, color_style(Color::Cyan)),
        HostState::Completed => ("[OK]"@, color_style(Color::Green)),
        _ => ("[?]"@, color_style(Color::White)),
    }
}

/// A host's recap line.
pub open spec fn recap_line(host: Seq<char>, s: HostStats, state: HostState) -> Seq<SpanView> {
    seq![
        (host, recap_host_style(s, state)),
        (": "@, plain_style()),
        state_marker(state),
        (" ok="@, plain_style()),
        (dec(s.ok as nat), color_style(Color::Green)),
        (" changed="@, plain_style()),
        (dec(s.changed as nat), color_style(Color::Yellow)),
        (" failed="@, plain_style()),
        (dec(s.failed as nat), color_style(Color::Red)),
        (" skipped="@, plain_style()),
        (dec(s.skipped as nat), color_style(Color::Cyan)),
        (" unreachable="@, plain_style()),
        (dec(s.unreachable as nat), color_style(Color::Magenta)),
    ]
}

/// A host's recap line reads `host: [STATE] ok=N changed=N failed=N
/// skipped=N unreachable=N`, each label followed by the host's own count of
/// that kind.
pub proof fn lemma_recap_line_text(host: Seq<char>, s: HostStats, state: HostState)
    ensures
        text_of(recap_line(host, s, state)) == host + ": "@ + state_marker(state).0 + " ok="@ + dec(s.ok as nat) + " changed="@ + dec(s.changed as nat)
            + " failed="@ + dec(s.failed as nat) + " skipped="@ + dec(s.skipped as nat) + " unreachable="@ + dec(
            s.unreachable as nat,
        ),
{
    reveal_with_fuel(text_of, 14);
    assert(text_of(recap_line(host, s, state)) =~= host + ": "@ + state_marker(state).0 + " ok="@ + dec(s.ok as nat) + " changed="@ + dec(s.changed as nat)
            + " failed="@ + dec(s.failed as nat) + " skipped="@ + dec(s.skipped as nat) + " unreachable="@ + dec(
            s.unreachable as nat,
        ));
}

/// The task header on a terminal: `TASK [name] ***`, the fork count, and a
/// blank line.
pub open spec fn terminal_task_header(name: Seq<char>, forks: usize) -> Seq<Seq<SpanView>> {
    seq![
        Seq::<SpanView>::empty(),
        seq![
            ("TASK"@, bold_style(Color::Cyan)),
            (" ["@, plain_style()),
            (name, bold_style(Color::BrightWhite)),
            ("] "@, plain_style()),
            (repeat_char('*', (60 - if (utf8_len(name) as usize) < 55 { utf8_len(name) as usize } else { 55usize }) as nat), plain_style()),
        ],
        seq![("Parallel execution (forks="@ + dec(forks as nat) + "):"@, color_style(Color::BrightBlack))],
        Seq::<SpanView>::empty(),
    ]
}

/// The task header in plain mode: `TASK [name]`.
pub open spec fn plain_task_header(name: Seq<char>) -> Seq<Seq<SpanView>> {
    seq![
        Seq::<SpanView>::empty(),
        seq![("TASK"@, bold_style(Color::Cyan)), (" ["@, plain_style()), (name, bold_style(Color::BrightWhite)), ("]"@, plain_style())],
    ]
}

/// A status line in plain mode.
pub fn format_simple_status(host: &str, task_name: &str, status: Span) -> (l: Vec<Span>)
    ensures
        line_view(l@) == simple_status_line(host@, task_name@, (status.text@, status.style)),
{
    let mut l = Vec::new();
    push_span(&mut l, "  ", Style::plain());
    push_span(&mut l, host, Style::bold(Color::BrightWhite));
    push_span(&mut l, " | ", Style::plain());
    push_span(&mut l, task_name, Style::fg(Color::Yellow));
    push_span(&mut l, " | ", Style::plain());
    let ghost sv = (status.text@, status.style);
    push_owned(&mut l, status.text, status.style);
    proof {
        assert(line_view(l@) =~= simple_status_line(host@, task_name@, sv));
    }
    l
}

/// The status of a finished task.
fn status_of(skipped: bool, success: bool, changed: bool, message: &str) -> (s: Span)
    ensures
        (s.text@, s.style) == status_span(skipped, success, changed, message@),
{
    if skipped {
        Span { text: "skipped".to_owned(), style: Style::fg(Color::Cyan) }
    } else if !success {
        let mut t = String::new();
        push_str(&mut t, "FAILED: ");
        push_str(&mut t, message);
        Span { text: t, style: Style::fg(Color::Red) }
    } else if changed {
        Span { text: "changed".to_owned(), style: Style::fg(Color::Yellow) }
    } else {
        Span { text: "ok".to_owned(), style: Style::fg(Color::Green) }
    }
}

/// A host's recap line.
pub fn format_recap_line(host: &str, stats: &HostStats, state: &HostState) -> (l: Vec<Span>)
    ensures
        line_view(l@) == recap_line(host@, *stats, *state),
{
    let host_style = match state {
        HostState::Failed | HostState::Unreachable => Style::bold(Color::Red),
        HostState::Completed => if stats.changed > 0 { Style::fg(Color::Yellow) } else { Style::fg(Color::Green) },
        HostState::Skipped => Style::fg(Color::Cyan),
        _ => Style::fg(Color::White),
    };
    let mut l = Vec::new();
    push_span(&mut l, host, host_style);
    push_span(&mut l, ": ", Style::plain());
    match state {
        HostState::Failed => push_span(&mut l, "[FAILED]", Style::bold(Color::Red)),
        HostState::Unreachable => push_span(&mut l, "[UNREACHABLE]", Style::bold(Color::Magenta)),
        HostState::Skipped => push_span(&mut l, "[SKIPPED]", Style::fg(Color::Cyan)),
        HostState::Completed => push_span(&mut l, "[OK]", Style::fg(Color::Green)),
        _ => push_span(&mut l, "[?]", Style::fg(Color::White)),
    }
    push_span(&mut l, " ok=", Style::plain());
    push_owned(&mut l, dec_string(stats.ok as u64), Style::fg(Color::Green));
    push_span(&mut l, " changed=", Style::plain());
    push_owned(&mut l, dec_string(stats.changed as u64), Style::fg(Color::Yellow));
    push_span(&mut l, " failed=", Style::plain());
    push_owned(&mut l, dec_string(stats.failed as u64), Style::fg(Color::Red));
    push_span(&mut l, " skipped=", Style::plain());
    push_owned(&mut l, dec_string(stats.skipped as u64), Style::fg(Color::Cyan));
    push_span(&mut l, " unreachable=", Style::plain());
    push_owned(&mut l, dec_string(stats.unreachable as u64), Style::fg(Color::Magenta));
    proof {
        assert(line_view(l@) =~= recap_line(host@, *stats, *state));
    }
    l
}


// ---------------------------------------------------------------------------
// The callback
// ---------------------------------------------------------------------------

/// A host's counts (ok, changed, failed, skipped, unreachable), its current
/// task and whether that task's start was recorded.
pub type StatsView = (u32, u32, u32, u32, u32, Option<Seq<char>>, bool);

/// The view of a host's counts.
pub open spec fn stats_view(s: HostStats) -> StatsView {
    (s.ok, s.changed, s.failed, s.skipped, s.unreachable, opt_chars(s.current_task), s.task_started)
}

/// A host with nothing counted.
pub open spec fn zero_view() -> StatsView {
    (0, 0, 0, 0, 0, None, false)
}

/// The counts of `host`, zero if it has none.
pub open spec fn view_of(m: Map<Seq<char>, StatsView>, host: Seq<char>) -> StatsView {
    if m.contains_key(host) {
        m[host]
    } else {
        zero_view()
    }
}

/// The counts after a finished task: skip first, then failure, then change;
/// the host runs no task any more.
pub open spec fn counted(v: StatsView, skipped: bool, success: bool, changed: bool) -> StatsView {
    if skipped {
        (v.0, v.1, v.2, wrap_inc(v.3), v.4, None, false)
    } else if !success {
        (v.0, v.1, wrap_inc(v.2), v.3, v.4, None, false)
    } else if changed {
        (v.0, wrap_inc(v.1), v.2, v.3, v.4, None, false)
    } else {
        (wrap_inc(v.0), v.1, v.2, v.3, v.4, None, false)
    }
}

/// The state a finished task leaves its host in.
pub open spec fn finished_state(skipped: bool, success: bool) -> HostState {
    if skipped {
        HostState::Skipped
    } else if !success {
        HostState::Failed
    } else {
        HostState::Completed
    }
}

/// The state of `host` for the recap: Completed when it has none.
pub open spec fn state_or_completed(m: Map<Seq<char>, HostState>, host: Seq<char>) -> HostState {
    if m.contains_key(host) {
        m[host]
    } else {
        HostState::Completed
    }
}

/// The recap lines of the hosts `hs`.
pub open spec fn recap_lines(hs: Seq<Seq<char>>, m: Map<Seq<char>, HostStats>, st: Map<Seq<char>, HostState>) -> Seq<Seq<SpanView>> {
    Seq::new(hs.len(), |i: int| recap_line(hs[i], m[hs[i]], state_or_completed(st, hs[i])))
}

/// Callback that shows parallel execution in fork slots.
#[derive(Debug)]
pub struct ForkedCallback {
    config: ForkedConfig,
    host_stats: HostTable<HostStats>,
    host_states: HostTable<HostState>,
    slots: Vec<ForkSlot>,
    bars_active: bool,
    started: bool,
    playbook_name: Option<String>,
    current_task: Option<String>,
    total_hosts: u64,
    completed_hosts: u64,
    failures: bool,
}

/// Copies a host's counts and task.
fn copy_stats(s: &HostStats) -> (r: HostStats)
    ensures
        stats_view(r) == stats_view(*s),
{
    HostStats {
        ok: s.ok,
        changed: s.changed,
        failed: s.failed,
        skipped: s.skipped,
        unreachable: s.unreachable,
        current_task: match &s.current_task {
            Some(t) => Some(t.clone()),
            None => None,
        },
        task_started: s.task_started,
    }
}

/// Free slots.
fn free_slots(n: usize) -> (r: Vec<ForkSlot>)
    ensures
        slot_views(r@) == Seq::new(n as nat, |i: int| free_slot()),
{
    let mut r: Vec<ForkSlot> = Vec::new();
    let mut i: usize = 0;
    while i < n
        invariant
            i <= n,
            slot_views(r@) == Seq::new(i as nat, |j: int| free_slot()),
        decreases n - i,
    {
        let ghost before = slot_views(r@);
        r.push(ForkSlot { host: None, has_bar: false, active: false });
        proof {
            assert(slot_views(r@) =~= before.push(free_slot()));
            assert(slot_views(r@) =~= Seq::new((i + 1) as nat, |j: int| free_slot()));
        }
        i = i + 1;
    }
    r
}

impl ForkedCallback {
    /// The tables are well formed and there is at least one fork.
    pub closed spec fn wf(&self) -> bool {
        self.host_stats.wf() && self.host_states.wf() && self.config.forks >= 1
    }

    /// The configuration.
    pub closed spec fn spec_config(&self) -> ForkedConfig {
        self.config
    }

    /// The counts per host.
    pub closed spec fn stats(&self) -> Map<Seq<char>, HostStats> {
        self.host_stats@
    }

    /// The counts per host, as views.
    pub open spec fn stats_views(&self) -> Map<Seq<char>, StatsView> {
        self.stats().map_values(|s: HostStats| stats_view(s))
    }

    /// The state per host.
    pub closed spec fn states(&self) -> Map<Seq<char>, HostState> {
        self.host_states@
    }

    /// The fork slots.
    pub closed spec fn slots(&self) -> Seq<SlotView> {
        slot_views(self.slots@)
    }

    /// Whether progress bars are shown.
    pub closed spec fn spec_bars_active(&self) -> bool {
        self.bars_active
    }

    /// Whether a playbook started.
    pub closed spec fn spec_started(&self) -> bool {
        self.started
    }

    /// The current task.
    pub closed spec fn spec_current_task(&self) -> Option<Seq<char>> {
        opt_chars(self.current_task)
    }

    /// The hosts of the current play.
    pub closed spec fn spec_total(&self) -> u64 {
        self.total_hosts
    }

    /// The tasks finished in the current play.
    pub closed spec fn spec_completed(&self) -> u64 {
        self.completed_hosts
    }

    /// Whether something failed.
    pub closed spec fn spec_failures(&self) -> bool {
        self.failures
    }

    /// A forked callback with `forks` slots (at least one).
    pub fn new(forks: usize) -> (c: Self)
        ensures
            c.wf(),
            c.spec_config().forks == if forks < 1 { 1 } else { forks },
            c.spec_config().slot_template@ == default_slot_template(),
            c.spec_config().show_host_progress,
            c.spec_config().show_summary,
            c.stats() == Map::<Seq<char>, HostStats>::empty(),
            !c.spec_failures(),
    {
        let mut config = ForkedConfig::default();
        config.forks = if forks < 1 { 1 } else { forks };
        Self::with_config(config)
    }

    /// A forked callback with the given configuration (at least one fork).
    pub fn with_config(config: ForkedConfig) -> (c: Self)
        ensures
            c.wf(),
            c.spec_config().forks == if config.forks < 1 { 1 } else { config.forks },
            c.spec_config().use_terminal_ui == config.use_terminal_ui,
            c.spec_config().show_host_progress == config.show_host_progress,
            c.spec_config().show_summary == config.show_summary,
            c.spec_config().slot_template@ == config.slot_template@,
            c.stats() == Map::<Seq<char>, HostStats>::empty(),
            c.states() == Map::<Seq<char>, HostState>::empty(),
            c.slots() == Seq::<SlotView>::empty(),
            !c.spec_failures(),
            !c.spec_started(),
            !c.spec_bars_active(),
            c.spec_current_task() is None,
    {
        let forks = if config.forks < 1 { 1 } else { config.forks };
        let c = ForkedCallback {
            config: ForkedConfig { forks, ..config },
            host_stats: HostTable::new(),
            host_states: HostTable::new(),
            slots: Vec::new(),
            bars_active: false,
            started: false,
            playbook_name: None,
            current_task: None,
            total_hosts: 0,
            completed_hosts: 0,
            failures: false,
        };
        proof {
            assert(c.slots() =~= Seq::<SlotView>::empty());
        }
        c
    }

    /// Whether something failed.
    pub fn has_failures(&self) -> (b: bool)
        ensures
            b == self.spec_failures(),
    {
        self.failures
    }

    /// The number of forks.
    pub fn forks(&self) -> (n: usize)
        ensures
            n == self.spec_config().forks,
    {
        self.config.forks
    }

    /// The counts of `host`, if it has any.
    pub fn host_stats(&self, host: &str) -> (r: Option<HostStats>)
        requires
            self.wf(),
        ensures
            match r {
                Some(s) => self.stats_views().contains_key(host@) && stats_view(s) == self.stats_views()[host@],
                None => !self.stats_views().contains_key(host@),
            },
    {
        match self.host_stats.get_ref(host) {
            Some(s) => Some(copy_stats(s)),
            None => None,
        }
    }

    /// The state of `host`, if it has one.
    pub fn host_state(&self, host: &str) -> (r: Option<HostState>)
        requires
            self.wf(),
        ensures
            r == if self.states().contains_key(host@) {
                Some(self.states()[host@])
            } else {
                None::<HostState>
            },
    {
        self.host_states.get(host)
    }

    /// Puts `host` into the first free slot and returns it, if there is one.
    pub fn allocate_fork_slot(&mut self, host: &str) -> (r: Option<usize>)
        ensures
            r == match index_where(old(self).slots(), is_free()) {
                Some(i) => Some(i as usize),
                None => None::<usize>,
            },
            final(self).slots() == allocated(old(self).slots(), host@),
            final(self).stats() == old(self).stats(),
            final(self).states() == old(self).states(),
            final(self).wf() == old(self).wf(),
            final(self).spec_config() == old(self).spec_config(),
            final(self).spec_failures() == old(self).spec_failures(),
            final(self).spec_bars_active() == old(self).spec_bars_active(),
            final(self).spec_current_task() == old(self).spec_current_task(),
            final(self).spec_started() == old(self).spec_started(),
            final(self).spec_total() == old(self).spec_total(),
            final(self).spec_completed() == old(self).spec_completed(),
    {
        let ghost sv = self.slots();
        match find_free(&self.slots) {
            Some(i) => {
                let has_bar = self.slots[i].has_bar;
                self.slots.set(i, ForkSlot { host: Some(host.to_owned()), has_bar, active: true });
                proof {
                    assert(self.slots() =~= allocated(sv, host@));
                }
                Some(i)
            },
            None => None,
        }
    }

    /// Frees the first slot of `host`; its progress bar, if it had one, is
    /// to be finished.
    pub fn release_fork_slot(&mut self, host: &str) -> (bars: Vec<BarAction>)
        ensures
            bar_views(bars@) == release_bars(old(self).slots(), host@),
            final(self).slots() == released(old(self).slots(), host@),
            final(self).stats() == old(self).stats(),
            final(self).states() == old(self).states(),
            final(self).wf() == old(self).wf(),
            final(self).spec_config() == old(self).spec_config(),
            final(self).spec_failures() == old(self).spec_failures(),
            final(self).spec_bars_active() == old(self).spec_bars_active(),
            final(self).spec_current_task() == old(self).spec_current_task(),
            final(self).spec_started() == old(self).spec_started(),
            final(self).spec_total() == old(self).spec_total(),
            final(self).spec_completed() == old(self).spec_completed(),
    {
        let ghost sv = self.slots();
        let mut bars: Vec<BarAction> = Vec::new();
        match find_slot(&self.slots, host) {
            Some(i) => {
                if self.slots[i].has_bar {
                    bars.push(BarAction::Finish { slot: i });
                }
                self.slots.set(i, ForkSlot { host: None, has_bar: false, active: false });
                proof {
                    assert(self.slots() =~= released(sv, host@));
                    assert(bar_views(bars@) =~= release_bars(sv, host@));
                }
            },
            None => {
                proof {
                    assert(bar_views(bars@) =~= release_bars(sv, host@));
                }
            },
        }
        bars
    }

    /// Moves the progress bar of `host`'s first slot, when it has one.
    pub fn update_host_progress(&self, host: &str, progress: u8, message: Span) -> (bars: Vec<BarAction>)
        ensures
            bar_views(bars@) == update_bars(self.slots(), host@, progress as u64, (message.text@, message.style)),
    {
        let ghost mv = (message.text@, message.style);
        let mut bars: Vec<BarAction> = Vec::new();
        match find_slot(&self.slots, host) {
            Some(i) => {
                if self.slots[i].has_bar {
                    bars.push(BarAction::Update { slot: i, position: progress as u64, message });
                }
            },
            None => {},
        }
        proof {
            assert(bar_views(bars@) =~= update_bars(self.slots(), host@, progress as u64, mv));
        }
        bars
    }

    /// The task header on a terminal.
    pub fn print_task_header(&self, task_name: &str) -> (out: Vec<Vec<Span>>)
        ensures
            lines_view(out@) == terminal_task_header(task_name@, self.spec_config().forks),
    {
        let n = byte_len(task_name);
        let m: usize = if n < 55 { n } else { 55 };
        let mut out: Vec<Vec<Span>> = Vec::new();
        push_line(&mut out, blank());
        let mut l = Vec::new();
        push_span(&mut l, "TASK", Style::bold(Color::Cyan));
        push_span(&mut l, " [", Style::plain());
        push_span(&mut l, task_name, Style::bold(Color::BrightWhite));
        push_span(&mut l, "] ", Style::plain());
        push_owned(&mut l, repeat_string('*', 60 - m), Style::plain());
        proof {
            assert(line_view(l@) =~= seq![
                ("TASK"@, bold_style(Color::Cyan)),
                (" ["@, plain_style()),
                (task_name@, bold_style(Color::BrightWhite)),
                ("] "@, plain_style()),
                (repeat_char('*', (60 - if (utf8_len(task_name@) as usize) < 55 { utf8_len(task_name@) as usize } else { 55usize }) as nat), plain_style()),
            ]);
        }
        push_line(&mut out, l);
        let mut t = String::new();
        push_str(&mut t, "Parallel execution (forks=");
        push_dec(&mut t, self.config.forks as u64);
        push_str(&mut t, "):");
        push_line(&mut out, single(t.as_str(), Style::fg(Color::BrightBlack)));
        push_line(&mut out, blank());
        proof {
            assert(lines_view(out@) =~= terminal_task_header(task_name@, self.spec_config().forks));
        }
        out
    }
}


/// The counts after one more unreachable attempt.
pub open spec fn unreachable_counted(v: StatsView) -> StatsView {
    (v.0, v.1, v.2, v.3, wrap_inc(v.4), v.5, v.6)
}

/// The line of an unreachable host.
pub open spec fn unreachable_line(host: Seq<char>, task: Seq<char>, error: Seq<char>) -> Seq<SpanView> {
    seq![
        ("  "@, plain_style()),
        ("UNREACHABLE"@, bold_style(Color::Magenta)),
        (" "@, plain_style()),
        (host, bold_style(Color::BrightWhite)),
        (" | "@, plain_style()),
        (task, color_style(Color::Yellow)),
        (" | "@, plain_style()),
        (error, color_style(Color::Red)),
    ]
}

/// The playbook's last lines: its name, how it ended and how long it took.
pub open spec fn finished_line(name: Seq<char>, success: bool, secs: Seq<char>) -> Seq<SpanView> {
    seq![
        (name, bold_style(Color::BrightWhite)),
        (" "@, plain_style()),
        if success { ("completed successfully"@, bold_style(Color::Green)) } else { ("failed"@, bold_style(Color::Red)) },
        (" in "@ + secs + "s"@, plain_style()),
    ]
}

impl ForkedCallback {
    /// Stores the counts of `host`.
    fn put_stats(&mut self, host: &str, s: HostStats)
        requires
            old(self).wf(),
        ensures
            final(self).wf(),
            final(self).stats_views() == old(self).stats_views().insert(host@, stats_view(s)),
            final(self).states() == old(self).states(),
            final(self).slots() == old(self).slots(),
            final(self).spec_config() == old(self).spec_config(),
            final(self).spec_failures() == old(self).spec_failures(),
            final(self).spec_bars_active() == old(self).spec_bars_active(),
            final(self).spec_current_task() == old(self).spec_current_task(),
            final(self).spec_started() == old(self).spec_started(),
            final(self).spec_total() == old(self).spec_total(),
            final(self).spec_completed() == old(self).spec_completed(),
    {
        let ghost sv = stats_view(s);
        self.host_stats.set(host, s);
        proof {
            assert(self.stats_views() =~= old(self).stats_views().insert(host@, sv));
        }
    }

    /// The counts of `host`, zero if it has none.
    fn stats_or_zero(&self, host: &str) -> (r: HostStats)
        requires
            self.wf(),
        ensures
            stats_view(r) == view_of(self.stats_views(), host@),
    {
        match self.host_stats.get_ref(host) {
            Some(s) => copy_stats(s),
            None => HostStats {
                ok: 0,
                changed: 0,
                failed: 0,
                skipped: 0,
                unreachable: 0,
                current_task: None,
                task_started: false,
            },
        }
    }

    /// A playbook starts: counts, states and failures are reset, the fork
    /// slots are laid out, and the header is shown.
    pub fn on_playbook_start(&mut self, name: &str) -> (out: Vec<Vec<Span>>)
        requires
            old(self).wf(),
        ensures
            final(self).wf(),
            final(self).spec_config() == old(self).spec_config(),
            final(self).stats() == Map::<Seq<char>, HostStats>::empty(),
            final(self).states() == Map::<Seq<char>, HostState>::empty(),
            final(self).slots() == Seq::new(old(self).spec_config().forks as nat, |i: int| free_slot()),
            !final(self).spec_failures(),
            final(self).spec_started(),
            final(self).spec_total() == 0,
            final(self).spec_completed() == 0,
            final(self).spec_bars_active() == old(self).spec_bars_active(),
            lines_view(out@) == seq![
                Seq::<SpanView>::empty(),
                seq![("PLAYBOOK:"@, bold_style(Color::Magenta)), (" "@, plain_style()), (name@, bold_style(Color::BrightWhite))],
                seq![("Parallelism: "@ + dec(old(self).spec_config().forks as nat) + " forks"@, color_style(Color::BrightBlack))],
            ],
    {
        self.started = true;
        self.playbook_name = Some(name.to_owned());
        self.host_stats.clear();
        self.host_states.clear();
        self.failures = false;
        self.total_hosts = 0;
        self.completed_hosts = 0;
        self.slots = free_slots(self.config.forks);
        let mut out: Vec<Vec<Span>> = Vec::new();
        push_line(&mut out, blank());
        let mut l = Vec::new();
        push_span(&mut l, "PLAYBOOK:", Style::bold(Color::Magenta));
        push_span(&mut l, " ", Style::plain());
        push_span(&mut l, name, Style::bold(Color::BrightWhite));
        proof {
            assert(line_view(l@) =~= seq![("PLAYBOOK:"@, bold_style(Color::Magenta)), (" "@, plain_style()), (name@, bold_style(Color::BrightWhite))]);
        }
        push_line(&mut out, l);
        let mut t = String::new();
        push_str(&mut t, "Parallelism: ");
        push_dec(&mut t, self.config.forks as u64);
        push_str(&mut t, " forks");
        push_line(&mut out, single(t.as_str(), Style::fg(Color::BrightBlack)));
        proof {
            assert(lines_view(out@) =~= seq![
                Seq::<SpanView>::empty(),
                seq![("PLAYBOOK:"@, bold_style(Color::Magenta)), (" "@, plain_style()), (name@, bold_style(Color::BrightWhite))],
                seq![("Parallelism: "@ + dec(old(self).spec_config().forks as nat) + " forks"@, color_style(Color::BrightBlack))],
            ]);
        }
        out
    }

    /// A play starts: its hosts get counts (where they have none) and wait;
    /// the host count is its total and nothing is finished yet.
    pub fn on_play_start(&mut self, name: &str, hosts: &Vec<String>) -> (out: Vec<Vec<Span>>)
        requires
            old(self).wf(),
        ensures
            final(self).wf(),
            final(self).spec_config() == old(self).spec_config(),
            final(self).slots() == old(self).slots(),
            final(self).spec_failures() == old(self).spec_failures(),
            final(self).spec_started() == old(self).spec_started(),
            final(self).spec_total() == hosts@.len() as u64,
            final(self).spec_completed() == 0,
            forall|k: Seq<char>| #[trigger] final(self).stats_views().contains_key(k) <==> (old(self).stats_views().contains_key(k)
                || views(hosts@).contains(k)),
            forall|k: Seq<char>| #[trigger] final(self).stats_views().contains_key(k) ==> final(self).stats_views()[k]
                == view_of(old(self).stats_views(), k),
            forall|k: Seq<char>| #[trigger] final(self).states().contains_key(k) <==> (old(self).states().contains_key(k)
                || views(hosts@).contains(k)),
            forall|k: Seq<char>| #[trigger] views(hosts@).contains(k) ==> final(self).states()[k] == HostState::Pending,
            forall|k: Seq<char>| #[trigger] old(self).states().contains_key(k) && !views(hosts@).contains(k)
                ==> final(self).states()[k] == old(self).states()[k],
            lines_view(out@) == seq![
                Seq::<SpanView>::empty(),
                seq![
                    ("PLAY"@, bold_style(Color::Cyan)),
                    (" ["@, plain_style()),
                    (name@, bold_style(Color::BrightWhite)),
                    ("] "@ + dec(hosts@.len()) + " hosts"@, plain_style()),
                ],
            ],
    {
        let mut i: usize = 0;
        while i < hosts.len()
            invariant
                i <= hosts.len(),
                self.wf(),
                self.config == old(self).config,
                self.slots == old(self).slots,
                self.failures == old(self).failures,
                self.started == old(self).started,
                forall|k: Seq<char>| #[trigger] self.stats_views().contains_key(k) <==> (old(self).stats_views().contains_key(k)
                    || views(hosts@.subrange(0, i as int)).contains(k)),
                forall|k: Seq<char>| #[trigger] self.stats_views().contains_key(k) ==> self.stats_views()[k] == view_of(
                    old(self).stats_views(),
                    k,
                ),
                forall|k: Seq<char>| #[trigger] self.states().contains_key(k) <==> (old(self).states().contains_key(k)
                    || views(hosts@.subrange(0, i as int)).contains(k)),
                forall|k: Seq<char>| #[trigger] views(hosts@.subrange(0, i as int)).contains(k) ==> self.states()[k]
                    == HostState::Pending,
                forall|k: Seq<char>| #[trigger] old(self).states().contains_key(k) && !views(hosts@.subrange(0, i as int)).contains(k)
                    ==> self.states()[k] == old(self).states()[k],
            decreases hosts.len() - i,
        {
            let h = hosts[i].as_str();
            let ghost before = self.stats_views();
            let ghost sbefore = self.states();
            if !self.host_stats.contains(h) {
                self.host_stats.set(h, HostStats {
                    ok: 0,
                    changed: 0,
                    failed: 0,
                    skipped: 0,
                    unreachable: 0,
                    current_task: None,
                    task_started: false,
                });
            }
            self.host_states.set(h, HostState::Pending);
            proof {
                if before.contains_key(h@) {
                    assert(self.stats_views() =~= before);
                } else {
                    assert(self.stats_views() =~= before.insert(h@, zero_view()));
                }
                let prev = views(hosts@.subrange(0, i as int));
                let cur = views(hosts@.subrange(0, i + 1));
                assert(cur =~= prev.push(h@));
                assert forall|k: Seq<char>| cur.contains(k) <==> (prev.contains(k) || k == h@) by {
                    if cur.contains(k) {
                        let j = choose|j: int| 0 <= j < cur.len() && cur[j] == k;
                        if j < prev.len() {
                            assert(prev[j] == k);
                        }
                    }
                    if prev.contains(k) {
                        let j = choose|j: int| 0 <= j < prev.len() && prev[j] == k;
                        assert(cur[j] == k);
                    }
                    if k == h@ {
                        assert(cur[i as int] == k);
                    }
                }
                assert forall|k: Seq<char>| #[trigger] self.stats_views().contains_key(k) implies self.stats_views()[k]
                    == view_of(old(self).stats_views(), k) by {
                    if before.contains_key(k) {
                        assert(self.stats_views()[k] == before[k]);
                    } else {
                        assert(k == h@);
                        assert(!old(self).stats_views().contains_key(k));
                    }
                }
            }
            i = i + 1;
        }
        proof {
            assert(hosts@.subrange(0, i as int) =~= hosts@);
            assert(views(hosts@.subrange(0, i as int)) == views(hosts@));
            assert forall|k: Seq<char>| #[trigger] self.states().contains_key(k) <==> (old(self).states().contains_key(k)
                || views(hosts@).contains(k)) by {
                assert(views(hosts@.subrange(0, i as int)).contains(k) == views(hosts@).contains(k));
            }
        }
        let ghost mid_states = self.states();
        let ghost mid_views = self.stats_views();
        self.total_hosts = hosts.len() as u64;
        self.completed_hosts = 0;
        proof {
            assert(self.stats_views() == mid_views);
            assert(self.states() == mid_states);
        }
        let mut out: Vec<Vec<Span>> = Vec::new();
        push_line(&mut out, blank());
        let mut l = Vec::new();
        push_span(&mut l, "PLAY", Style::bold(Color::Cyan));
        push_span(&mut l, " [", Style::plain());
        push_span(&mut l, name, Style::bold(Color::BrightWhite));
        let mut t = String::new();
        push_str(&mut t, "] ");
        push_dec(&mut t, hosts.len() as u64);
        push_str(&mut t, " hosts");
        push_owned(&mut l, t, Style::plain());
        proof {
            assert(line_view(l@) =~= seq![
                ("PLAY"@, bold_style(Color::Cyan)),
                (" ["@, plain_style()),
                (name@, bold_style(Color::BrightWhite)),
                ("] "@ + dec(hosts@.len()) + " hosts"@, plain_style()),
            ]);
        }
        push_line(&mut out, l);
        proof {
            assert(lines_view(out@) =~= seq![
                Seq::<SpanView>::empty(),
                seq![
                    ("PLAY"@, bold_style(Color::Cyan)),
                    (" ["@, plain_style()),
                    (name@, bold_style(Color::BrightWhite)),
                    ("] "@ + dec(hosts@.len()) + " hosts"@, plain_style()),
                ],
            ]);
        }
        out
    }

    /// A play ends: every slot is freed and its progress bar finished.
    pub fn on_play_end(&mut self, name: &str, success: bool) -> (bars: Vec<BarAction>)
        requires
            old(self).wf(),
        ensures
            final(self).wf(),
            final(self).slots() == Seq::new(old(self).slots().len(), |i: int| free_slot()),
            bar_views(bars@) == slot_finish_bars(old(self).slots(), old(self).slots().len() as int),
            final(self).stats() == old(self).stats(),
            final(self).states() == old(self).states(),
            final(self).spec_config() == old(self).spec_config(),
            final(self).spec_failures() == old(self).spec_failures(),
            final(self).spec_started() == old(self).spec_started(),
    {
        let ghost sv = self.slots();
        let n = self.slots.len();
        let mut bars: Vec<BarAction> = Vec::new();
        let mut i: usize = 0;
        while i < n
            invariant
                i <= n == sv.len(),
                self.wf(),
                self.slots@.len() == n,
                self.config == old(self).config,
                self.host_stats == old(self).host_stats,
                self.host_states == old(self).host_states,
                self.failures == old(self).failures,
                self.started == old(self).started,
                forall|j: int| 0 <= j < i ==> #[trigger] self.slots()[j] == free_slot(),
                forall|j: int| i <= j < n ==> #[trigger] self.slots()[j] == sv[j],
                bar_views(bars@) == slot_finish_bars(sv, i as int),
            decreases n - i,
        {
            proof {
                assert(self.slots()[i as int] == sv[i as int]);
                assert(sv[i as int] == slot_view(self.slots@[i as int]));
            }
            let ghost bb = bar_views(bars@);
            if self.slots[i].has_bar {
                bars.push(BarAction::Finish { slot: i });
                proof {
                    assert(bar_views(bars@) =~= bb.push(BarView::Finish(i)));
                }
            }
            let ghost sb = self.slots();
            self.slots.set(i, ForkSlot { host: None, has_bar: false, active: false });
            proof {
                assert(self.slots() =~= sb.update(i as int, free_slot()));
            }
            i = i + 1;
        }
        proof {
            assert(self.slots() =~= Seq::new(sv.len(), |i: int| free_slot()));
        }
        bars
    }

    /// A task starts on a host: a new task's header is shown, the host
    /// takes a free slot and runs in it, and on a terminal the slot gets a
    /// progress bar; otherwise a `starting...` line is shown.
    pub fn on_task_start(&mut self, name: &str, host: &str) -> (out: ForkedOutput)
        requires
            old(self).wf(),
        ensures
            final(self).wf(),
            final(self).spec_config() == old(self).spec_config(),
            final(self).spec_current_task() == Some(name@),
            final(self).spec_failures() == old(self).spec_failures(),
            final(self).spec_started() == old(self).spec_started(),
            final(self).spec_total() == old(self).spec_total(),
            final(self).spec_completed() == old(self).spec_completed(),
            final(self).states() == match index_where(old(self).slots(), is_free()) {
                Some(i) => old(self).states().insert(host@, HostState::Running { fork_slot: #[verifier::truncate] (i as usize) }),
                None => old(self).states(),
            },
            final(self).stats_views() == if old(self).stats_views().contains_key(host@) {
                let v = old(self).stats_views()[host@];
                old(self).stats_views().insert(host@, (v.0, v.1, v.2, v.3, v.4, Some(name@), true))
            } else {
                old(self).stats_views()
            },
            ({
                let s1 = allocated(old(self).slots(), host@);
                if old(self).spec_config().use_terminal_ui && old(self).spec_config().show_host_progress {
                    match index_where(s1, holds_bare(host@)) {
                        Some(j) => final(self).slots() == s1.update(j, (s1[j].0, true, s1[j].2))
                            && bar_views(out.bars@) == seq![BarView::Create(j as usize, host@)] && final(self).spec_bars_active(),
                        None => final(self).slots() == s1 && bar_views(out.bars@) == Seq::<BarView>::empty()
                            && final(self).spec_bars_active() == old(self).spec_bars_active(),
                    }
                } else {
                    final(self).slots() == s1 && bar_views(out.bars@) == Seq::<BarView>::empty()
                        && final(self).spec_bars_active() == old(self).spec_bars_active()
                }
            }),
            lines_view(out.lines@) == (if old(self).spec_current_task() != Some(name@) {
                if old(self).spec_config().use_terminal_ui {
                    terminal_task_header(name@, old(self).spec_config().forks)
                } else {
                    plain_task_header(name@)
                }
            } else {
                Seq::<Seq<SpanView>>::empty()
            }) + if old(self).spec_config().use_terminal_ui && old(self).spec_config().show_host_progress {
                Seq::<Seq<SpanView>>::empty()
            } else {
                seq![simple_status_line(host@, name@, ("starting..."@, plain_style()))]
            },
    {
        let same = match &self.current_task {
            Some(t) => str_eq(t.as_str(), name),
            None => false,
        };
        let mut lines: Vec<Vec<Span>> = Vec::new();
        if !same {
            self.current_task = Some(name.to_owned());
            if self.config.use_terminal_ui {
                lines = self.print_task_header(name);
            } else {
                push_line(&mut lines, blank());
                let mut l = Vec::new();
                push_span(&mut l, "TASK", Style::bold(Color::Cyan));
                push_span(&mut l, " [", Style::plain());
                push_span(&mut l, name, Style::bold(Color::BrightWhite));
                push_span(&mut l, "]", Style::plain());
                proof {
                    assert(line_view(l@) =~= seq![("TASK"@, bold_style(Color::Cyan)), (" ["@, plain_style()), (name@, bold_style(Color::BrightWhite)), ("]"@, plain_style())]);
                }
                push_line(&mut lines, l);
                proof {
                    assert(lines_view(lines@) =~= plain_task_header(name@));
                }
            }
        } else {
            proof {
                assert(lines_view(lines@) =~= Seq::<Seq<SpanView>>::empty());
            }
        }
        let ghost head = lines_view(lines@);
        let ghost s0 = self.slots();
        let slot = self.allocate_fork_slot(host);
        match slot {
            Some(i) => {
                self.host_states.set(host, HostState::Running { fork_slot: i });
            },
            None => {},
        }
        if self.host_stats.contains(host) {
            let cur = self.stats_or_zero(host);
            let next = HostStats { current_task: Some(name.to_owned()), task_started: true, ..cur };
            self.put_stats(host, next);
        }
        let ghost s1 = self.slots();
        let mut bars: Vec<BarAction> = Vec::new();
        if self.config.use_terminal_ui && self.config.show_host_progress {
            match find_bare_slot(&self.slots, host) {
                Some(j) => {
                    let h = self.slots[j].host.clone();
                    let active = self.slots[j].active;
                    self.slots.set(j, ForkSlot { host: h, has_bar: true, active });
                    self.bars_active = true;
                    bars.push(BarAction::Create { slot: j, host: host.to_owned() });
                    proof {
                        assert(self.slots() =~= s1.update(j as int, (s1[j as int].0, true, s1[j as int].2)));
                        assert(bar_views(bars@) =~= seq![BarView::Create(j, host@)]);
                    }
                },
                None => {
                    proof {
                        assert(bar_views(bars@) =~= Seq::<BarView>::empty());
                    }
                },
            }
            proof {
                assert(lines_view(lines@) =~= head + Seq::<Seq<SpanView>>::empty());
            }
        } else {
            push_line(&mut lines, format_simple_status(host, name, Span { text: "starting...".to_owned(), style: Style::plain() }));
            proof {
                assert(bar_views(bars@) =~= Seq::<BarView>::empty());
            }
        }
        ForkedOutput { lines, bars }
    }
}

/// The finish actions for the slots before `n` that have a bar.
pub open spec fn slot_finish_bars(s: Seq<SlotView>, n: int) -> Seq<BarView>
    decreases n,
{
    if n <= 0 {
        Seq::empty()
    } else if s[n - 1].1 {
        slot_finish_bars(s, n - 1).push(BarView::Finish((n - 1) as usize))
    } else {
        slot_finish_bars(s, n - 1)
    }
}


impl ForkedCallback {
    /// A task finished on a host: it is counted, a running host takes the
    /// state the result leaves it in, the status goes to its progress bar
    /// (terminal) or a status line, its slot is freed, and one more task is
    /// finished.
    pub fn on_task_complete(&mut self, result: &ExecutionResult) -> (out: ForkedOutput)
        requires
            old(self).wf(),
        ensures
            final(self).wf(),
            final(self).spec_config() == old(self).spec_config(),
            final(self).spec_current_task() == old(self).spec_current_task(),
            final(self).spec_started() == old(self).spec_started(),
            final(self).spec_total() == old(self).spec_total(),
            final(self).spec_bars_active() == old(self).spec_bars_active(),
            final(self).spec_completed() == (if old(self).spec_completed() == u64::MAX { 0 } else { (old(self).spec_completed() + 1) as u64 }),
            final(self).spec_failures() == (old(self).spec_failures() || (!result.result.skipped && !result.result.success)),
            final(self).stats_views() == old(self).stats_views().insert(
                result.host@,
                counted(view_of(old(self).stats_views(), result.host@), result.result.skipped, result.result.success, result.result.changed),
            ),
            final(self).states() == if old(self).states().contains_key(result.host@) && old(self).states()[result.host@] is Running {
                old(self).states().insert(result.host@, finished_state(result.result.skipped, result.result.success))
            } else {
                old(self).states()
            },
            final(self).slots() == released(old(self).slots(), result.host@),
            ({
                let st = status_span(result.result.skipped, result.result.success, result.result.changed, result.result.message@);
                if old(self).spec_config().use_terminal_ui {
                    lines_view(out.lines@) == Seq::<Seq<SpanView>>::empty() && bar_views(out.bars@) == update_bars(
                        old(self).slots(),
                        result.host@,
                        100,
                        st,
                    ) + release_bars(old(self).slots(), result.host@)
                } else {
                    lines_view(out.lines@) == seq![simple_status_line(result.host@, result.task_name@, st)] && bar_views(out.bars@)
                        == release_bars(old(self).slots(), result.host@)
                }
            }),
    {
        let host = result.host.as_str();
        let r = &result.result;
        let cur = self.stats_or_zero(host);
        let next = if r.skipped {
            HostStats { skipped: inc(cur.skipped), current_task: None, task_started: false, ..cur }
        } else if !r.success {
            HostStats { failed: inc(cur.failed), current_task: None, task_started: false, ..cur }
        } else if r.changed {
            HostStats { changed: inc(cur.changed), current_task: None, task_started: false, ..cur }
        } else {
            HostStats { ok: inc(cur.ok), current_task: None, task_started: false, ..cur }
        };
        if !r.skipped && !r.success {
            self.failures = true;
        }
        self.put_stats(host, next);
        let new_state = if r.skipped {
            HostState::Skipped
        } else if !r.success {
            HostState::Failed
        } else {
            HostState::Completed
        };
        match self.host_states.get(host) {
            Some(HostState::Running { .. }) => {
                self.host_states.set(host, new_state);
            },
            _ => {},
        }
        let status = status_of(r.skipped, r.success, r.changed, r.message.as_str());
        let mut lines: Vec<Vec<Span>> = Vec::new();
        let mut bars: Vec<BarAction> = Vec::new();
        let ghost st = (status.text@, status.style);
        if self.config.use_terminal_ui {
            bars = self.update_host_progress(host, 100, status);
            proof {
                assert(lines_view(lines@) =~= Seq::<Seq<SpanView>>::empty());
            }
        } else {
            push_line(&mut lines, format_simple_status(host, result.task_name.as_str(), status));
            proof {
                assert(lines_view(lines@) =~= seq![simple_status_line(host@, result.task_name@, st)]);
            }
        }
        let ghost b1 = bar_views(bars@);
        let mut rel = self.release_fork_slot(host);
        let ghost b2 = bar_views(rel@);
        bars.append(&mut rel);
        proof {
            assert(bar_views(bars@) =~= b1 + b2);
        }
        self.completed_hosts = self.completed_hosts.wrapping_add(1);
        ForkedOutput { lines, bars }
    }

    /// A host could not be reached: it is marked unreachable and counted,
    /// its slot is freed, and a line is shown.
    pub fn on_host_unreachable(&mut self, host: &str, task_name: &str, error: &str) -> (out: ForkedOutput)
        requires
            old(self).wf(),
        ensures
            final(self).wf(),
            final(self).spec_config() == old(self).spec_config(),
            final(self).spec_failures(),
            final(self).spec_total() == old(self).spec_total(),
            final(self).spec_completed() == old(self).spec_completed(),
            final(self).states() == old(self).states().insert(host@, HostState::Unreachable),
            final(self).stats_views() == old(self).stats_views().insert(host@, unreachable_counted(view_of(old(self).stats_views(), host@))),
            final(self).slots() == released(old(self).slots(), host@),
            bar_views(out.bars@) == release_bars(old(self).slots(), host@),
            lines_view(out.lines@) == seq![unreachable_line(host@, task_name@, error@)],
    {
        self.host_states.set(host, HostState::Unreachable);
        let cur = self.stats_or_zero(host);
        let next = HostStats { unreachable: inc(cur.unreachable), ..cur };
        self.put_stats(host, next);
        self.failures = true;
        let bars = self.release_fork_slot(host);
        let mut l = Vec::new();
        push_span(&mut l, "  ", Style::plain());
        push_span(&mut l, "UNREACHABLE", Style::bold(Color::Magenta));
        push_span(&mut l, " ", Style::plain());
        push_span(&mut l, host, Style::bold(Color::BrightWhite));
        push_span(&mut l, " | ", Style::plain());
        push_span(&mut l, task_name, Style::fg(Color::Yellow));
        push_span(&mut l, " | ", Style::plain());
        push_span(&mut l, error, Style::fg(Color::Red));
        proof {
            assert(line_view(l@) =~= unreachable_line(host@, task_name@, error@));
        }
        let mut lines: Vec<Vec<Span>> = Vec::new();
        push_line(&mut lines, l);
        proof {
            assert(lines_view(lines@) =~= seq![unreachable_line(host@, task_name@, error@)]);
        }
        ForkedOutput { lines, bars }
    }

    /// A handler was notified.
    pub fn on_handler_triggered(&self, name: &str) -> (out: Vec<Vec<Span>>)
        ensures
            lines_view(out@) == seq![seq![
                ("  "@, plain_style()),
                ("HANDLER:"@, color_style(Color::BrightMagenta)),
                (" "@, plain_style()),
                (name@, color_style(Color::BrightWhite)),
            ]],
    {
        let mut l = Vec::new();
        push_span(&mut l, "  ", Style::plain());
        push_span(&mut l, "HANDLER:", Style::fg(Color::BrightMagenta));
        push_span(&mut l, " ", Style::plain());
        push_span(&mut l, name, Style::fg(Color::BrightWhite));
        proof {
            assert(line_view(l@) =~= seq![
                ("  "@, plain_style()),
                ("HANDLER:"@, color_style(Color::BrightMagenta)),
                (" "@, plain_style()),
                (name@, color_style(Color::BrightWhite)),
            ]);
        }
        let mut out: Vec<Vec<Span>> = Vec::new();
        push_line(&mut out, l);
        proof {
            assert(lines_view(out@) =~= seq![seq![
                ("  "@, plain_style()),
                ("HANDLER:"@, color_style(Color::BrightMagenta)),
                (" "@, plain_style()),
                (name@, color_style(Color::BrightWhite)),
            ]]);
        }
        out
    }

    /// Facts were gathered for a host: its progress bar moves to 10% on a
    /// terminal, otherwise a status line is shown.
    pub fn on_facts_gathered(&self, host: &str) -> (out: ForkedOutput)
        ensures
            if self.spec_config().use_terminal_ui {
                lines_view(out.lines@) == Seq::<Seq<SpanView>>::empty() && bar_views(out.bars@) == update_bars(
                    self.slots(),
                    host@,
                    10,
                    ("Facts gathered"@, plain_style()),
                )
            } else {
                lines_view(out.lines@) == seq![simple_status_line(host@, "gather_facts"@, ("ok"@, color_style(Color::Green)))]
                    && bar_views(out.bars@) == Seq::<BarView>::empty()
            },
    {
        let mut lines: Vec<Vec<Span>> = Vec::new();
        if self.config.use_terminal_ui {
            let bars = self.update_host_progress(host, 10, Span { text: "Facts gathered".to_owned(), style: Style::plain() });
            proof {
                assert(lines_view(lines@) =~= Seq::<Seq<SpanView>>::empty());
            }
            ForkedOutput { lines, bars }
        } else {
            push_line(&mut lines, format_simple_status(host, "gather_facts", Span { text: "ok".to_owned(), style: Style::fg(Color::Green) }));
            let bars: Vec<BarAction> = Vec::new();
            proof {
                assert(lines_view(lines@) =~= seq![simple_status_line(host@, "gather_facts"@, ("ok"@, color_style(Color::Green)))]);
                assert(bar_views(bars@) =~= Seq::<BarView>::empty());
            }
            ForkedOutput { lines, bars }
        }
    }

    /// The playbook ended: the bars are cleared, then a recap line per host
    /// in name order, the playbook's end with `elapsed_secs` (the seconds it
    /// took, to two decimals) once it started, and the parallelism summary.
    pub fn on_playbook_end(&mut self, name: &str, success: bool, elapsed_secs: &str) -> (out: ForkedOutput)
        requires
            old(self).wf(),
        ensures
            final(self).wf(),
            !final(self).spec_bars_active(),
            final(self).stats() == old(self).stats(),
            final(self).states() == old(self).states(),
            final(self).spec_config() == old(self).spec_config(),
            bar_views(out.bars@) == if old(self).spec_bars_active() { seq![BarView::ClearAll] } else { Seq::<BarView>::empty() },
            lines_view(out.lines@) == seq![
                Seq::<SpanView>::empty(),
                seq![(repeat_char('=', 70), color_style(Color::BrightBlack))],
                Seq::<SpanView>::empty(),
                seq![("PLAY RECAP"@, bold_style(Color::Cyan))],
                seq![(repeat_char('-', 70), color_style(Color::BrightBlack))],
            ] + recap_lines(sorted_keys(old(self).stats()), old(self).stats(), old(self).states()) + (if old(self).spec_started() {
                seq![Seq::<SpanView>::empty(), finished_line(name@, success, elapsed_secs@)]
            } else {
                Seq::<Seq<SpanView>>::empty()
            }) + seq![seq![(
                "Parallelism: "@ + dec(old(self).spec_config().forks as nat) + " forks, "@ + dec(old(self).spec_completed() as nat) + "/"@
                    + dec(old(self).spec_total() as nat) + " hosts processed"@,
                color_style(Color::BrightBlack),
            )]],
    {
        let mut bars: Vec<BarAction> = Vec::new();
        if self.bars_active {
            bars.push(BarAction::ClearAll);
            self.bars_active = false;
        }
        proof {
            assert(bar_views(bars@) =~= if old(self).spec_bars_active() { seq![BarView::ClearAll] } else { Seq::<BarView>::empty() });
        }
        let ghost m = self.stats();
        let ghost st = self.states();
        let mut lines: Vec<Vec<Span>> = Vec::new();
        push_line(&mut lines, blank());
        push_line(&mut lines, single(repeat_string('=', 70).as_str(), Style::fg(Color::BrightBlack)));
        push_line(&mut lines, blank());
        push_line(&mut lines, single("PLAY RECAP", Style::bold(Color::Cyan)));
        push_line(&mut lines, single(repeat_string('-', 70).as_str(), Style::fg(Color::BrightBlack)));
        let ghost head = lines_view(lines@);
        proof {
            self.host_stats.lemma_view();
        }
        let hosts = self.host_stats.sorted_names();
        let ghost hs = views(hosts@);
        proof {
            lemma_sorted_keys(hs, m);
            assert(recap_lines(hs.subrange(0, 0), m, st) =~= Seq::<Seq<SpanView>>::empty());
        }
        let mut i: usize = 0;
        while i < hosts.len()
            invariant
                self.wf(),
                m == self.stats(),
                st == self.states(),
                hs == views(hosts@),
                hs.len() == hosts@.len(),
                forall|k: Seq<char>| m.contains_key(k) <==> hs.contains(k),
                i <= hosts.len(),
                lines_view(lines@) == head + recap_lines(hs.subrange(0, i as int), m, st),
            decreases hosts.len() - i,
        {
            let h = hosts[i].as_str();
            proof {
                assert(hs[i as int] == h@);
                assert(hs.contains(h@));
            }
            let s = self.host_stats.get_ref(h).unwrap();
            let state = match self.host_states.get(h) {
                Some(x) => x,
                None => HostState::Completed,
            };
            push_line(&mut lines, format_recap_line(h, s, &state));
            proof {
                assert(recap_lines(hs.subrange(0, i + 1), m, st) =~= recap_lines(hs.subrange(0, i as int), m, st).push(
                    recap_line(h@, m[h@], state_or_completed(st, h@)),
                ));
                assert(lines_view(lines@) =~= head + recap_lines(hs.subrange(0, i + 1), m, st));
            }
            i = i + 1;
        }
        proof {
            assert(hs.subrange(0, i as int) =~= hs);
        }
        let ghost mid = lines_view(lines@);
        if self.started {
            push_line(&mut lines, blank());
            let mut l = Vec::new();
            push_span(&mut l, name, Style::bold(Color::BrightWhite));
            push_span(&mut l, " ", Style::plain());
            if success {
                push_span(&mut l, "completed successfully", Style::bold(Color::Green));
            } else {
                push_span(&mut l, "failed", Style::bold(Color::Red));
            }
            let mut t = String::new();
            push_str(&mut t, " in ");
            push_str(&mut t, elapsed_secs);
            push_str(&mut t, "s");
            push_owned(&mut l, t, Style::plain());
            proof {
                assert(line_view(l@) =~= finished_line(name@, success, elapsed_secs@));
            }
            push_line(&mut lines, l);
            proof {
                assert(lines_view(lines@) =~= mid + seq![Seq::<SpanView>::empty(), finished_line(name@, success, elapsed_secs@)]);
            }
        } else {
            proof {
                assert(lines_view(lines@) =~= mid + Seq::<Seq<SpanView>>::empty());
            }
        }
        let ghost mid2 = lines_view(lines@);
        let mut t = String::new();
        push_str(&mut t, "Parallelism: ");
        push_dec(&mut t, self.config.forks as u64);
        push_str(&mut t, " forks, ");
        push_dec(&mut t, self.completed_hosts);
        push_str(&mut t, "/");
        push_dec(&mut t, self.total_hosts);
        push_str(&mut t, " hosts processed");
        push_line(&mut lines, single(t.as_str(), Style::fg(Color::BrightBlack)));
        proof {
            assert(lines_view(lines@) =~= mid2 + seq![seq![(
                "Parallelism: "@ + dec(old(self).spec_config().forks as nat) + " forks, "@ + dec(old(self).spec_completed() as nat) + "/"@
                    + dec(old(self).spec_total() as nat) + " hosts processed"@,
                color_style(Color::BrightBlack),
            )]]);
        }
        ForkedOutput { lines, bars }
    }
}


impl Default for ForkedCallback {
    fn default() -> (c: Self)
        ensures
            c.wf(),
            c.spec_config().forks == 5,
    {
        Self::new(5)
    }
}

/// Builds a forked callback step by step.
#[derive(Clone, Debug)]
pub struct ForkedCallbackBuilder {
    pub config: ForkedConfig,
}

impl ForkedCallbackBuilder {
    /// A builder with the default configuration.
    pub fn new() -> (b: Self)
        ensures
            b.config.forks == 5,
            b.config.show_host_progress,
            b.config.show_summary,
            b.config.slot_template@ == default_slot_template(),
    {
        ForkedCallbackBuilder { config: ForkedConfig::default() }
    }

    /// Sets the number of forks.
    pub fn forks(self, forks: usize) -> (b: Self)
        ensures
            b.config == (ForkedConfig { forks, ..self.config }),
    {
        ForkedCallbackBuilder { config: ForkedConfig { forks, ..self.config } }
    }

    /// Turns the terminal UI on or off.
    pub fn terminal_ui(self, enabled: bool) -> (b: Self)
        ensures
            b.config == (ForkedConfig { use_terminal_ui: enabled, ..self.config }),
    {
        ForkedCallbackBuilder { config: ForkedConfig { use_terminal_ui: enabled, ..self.config } }
    }

    /// Turns the per-host progress bars on or off.
    pub fn show_host_progress(self, show: bool) -> (b: Self)
        ensures
            b.config == (ForkedConfig { show_host_progress: show, ..self.config }),
    {
        ForkedCallbackBuilder { config: ForkedConfig { show_host_progress: show, ..self.config } }
    }

    /// Turns the summary line on or off.
    pub fn show_summary(self, show: bool) -> (b: Self)
        ensures
            b.config == (ForkedConfig { show_summary: show, ..self.config }),
    {
        ForkedCallbackBuilder { config: ForkedConfig { show_summary: show, ..self.config } }
    }

    /// The callback.
    pub fn build(self) -> (c: ForkedCallback)
        ensures
            c.wf(),
            c.spec_config().forks == if self.config.forks < 1 { 1 } else { self.config.forks },
            c.spec_config().use_terminal_ui == self.config.use_terminal_ui,
            c.spec_config().show_host_progress == self.config.show_host_progress,
            c.spec_config().show_summary == self.config.show_summary,
    {
        ForkedCallback::with_config(self.config)
    }
}

impl ForkedCallback {
    /// Whether the terminal UI is on.
    pub fn uses_terminal_ui(&self) -> (b: bool)
        ensures
            b == self.spec_config().use_terminal_ui,
    {
        self.config.use_terminal_ui
    }
}


/// A slot taken and then released is free again, first in line for the
/// next host: when `i` is the first free slot and `host` holds none,
/// allocating and releasing for `host` leaves slot `i` free and the others
/// as they were.
pub proof fn lemma_release_frees_slot(s: Seq<SlotView>, host: Seq<char>, i: int)
    requires
        first_where(s, is_free(), i),
        forall|j: int| 0 <= j < s.len() ==> (#[trigger] s[j]).0 != Some(host),
    ensures
        allocated(s, host)[i].0 == Some(host),
        released(allocated(s, host), host) == s.update(i, free_slot()),
        index_where(released(allocated(s, host), host), is_free()) == Some(i),
{
    lemma_index_where(s, is_free(), i);
    let a = allocated(s, host);
    assert(a == s.update(i, (Some(host), s[i].1, true)));
    assert forall|j: int| 0 <= j < i implies !#[trigger] holds(host)(a[j]) by {
        assert(a[j] == s[j]);
    }
    assert(holds(host)(a[i]));
    lemma_index_where(a, holds(host), i);
    let r = released(a, host);
    assert(r =~= s.update(i, free_slot()));
    assert forall|j: int| 0 <= j < i implies !#[trigger] is_free()(r[j]) by {
        assert(r[j] == s[j]);
        assert(!is_free()(s[j]));
    }
    assert(is_free()(r[i]));
    lemma_index_where(r, is_free(), i);
}

} // verus!
