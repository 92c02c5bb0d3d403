//! The debug plugin: verbose output for troubleshooting, with separators,
//! per-task status lines with durations, result data, warnings and
//! notified handlers, and masking of sensitive values.
use vstd::prelude::*;
use crate::plugins::actionable::{lemma_sorted_keys, opt_chars, sorted_keys};
use crate::style::{
    append_lines, blank, bold_style, color_style, line_view, lines_view, plain_style, push_line,
    push_owned, push_span, single, Color, Span, SpanView, Style,
};
use crate::environment::{trim_text, trimmed};
use crate::table::{views, HostTable};
use crate::text::{
    contains_seq, dec, dec_zero_padded, join_seq, lines_of, lowercase, pad_right, push_dec,
    push_dec_zero_padded, push_padded, push_repeat, push_str, repeat_char, repeat_string,
    split_lines, str_contains, str_views, to_lowercase, utf8_len, byte_len, join_strs, join_strings,
};
use crate::types::{
    classify, compact_json, compact_text, copy_json, inc, jview, pretty_json, pretty_text, table_entries, table_object, jview_entries, jview_items, lemma_entries_prefix, lemma_items_prefix,
    lemma_jview_entries_index, lemma_jview_entries_len, lemma_jview_items_index, lemma_jview_items_len,
    outcome_of, wrap_inc, Elapsed, ExecutionResult, JsonValue, JsonView, TaskOutcome,
};

verus! {

// ---------------------------------------------------------------------------
// Sensitive values
// ---------------------------------------------------------------------------

/// What a masked value is replaced with.
pub const MASKED_VALUE: &'static str = "********";

/// The patterns that mark a key as sensitive (matched against the key in
/// lowercase).
pub open spec fn sensitive_pattern_list() -> Seq<Seq<char>> {
    seq![
        "password"@, "passwd"@, "secret"@, "token"@, "api_key"@, "apikey"@, "private_key"@,
        "privatekey"@, "credential"@, "auth"@, "bearer"@, "ssh_key"@, "sshkey"@, "access_key"@,
        "accesskey"@, "secret_key"@, "secretkey"@, "encryption_key"@, "vault_password"@,
        "become_pass"@, "ansible_password"@, "ansible_become_pass"@, "ansible_ssh_pass"@,
    ]
}

/// The patterns that mark a key as sensitive.
pub fn sensitive_patterns() -> (r: Vec<&'static str>)
    ensures
        str_views(r@) == sensitive_pattern_list(),
{
    let mut r = Vec::new();
    r.push("password");
    r.push("passwd");
    r.push("secret");
    r.push("token");
    r.push("api_key");
    r.push("apikey");
    r.push("private_key");
    r.push("privatekey");
    r.push("credential");
    r.push("auth");
    r.push("bearer");
    r.push("ssh_key");
    r.push("sshkey");
    r.push("access_key");
    r.push("accesskey");
    r.push("secret_key");
    r.push("secretkey");
    r.push("encryption_key");
    r.push("vault_password");
    r.push("become_pass");
    r.push("ansible_password");
    r.push("ansible_become_pass");
    r.push("ansible_ssh_pass");
    proof {
        assert(str_views(r@) =~= sensitive_pattern_list());
    }
    r
}

/// Whether a key (already lowercased) contains one of the patterns.
pub open spec fn is_sensitive_key(lower: Seq<char>) -> bool {
    exists|i: int| 0 <= i < sensitive_pattern_list().len() && contains_seq(lower, #[trigger] sensitive_pattern_list()[i])
}

/// A value with every entry under a sensitive key replaced by the mask,
/// at any depth.
pub open spec fn masked(v: JsonView) -> JsonView
    decreases v, 0int,
{
    match v {
        JsonView::Object(es) => JsonView::Object(masked_entries(es, es.len() as int)),
        JsonView::Array(items) => JsonView::Array(masked_items(items, items.len() as int)),
        _ => v,
    }
}

/// The first `k` items, masked.
pub open spec fn masked_items(s: Seq<JsonView>, k: int) -> Seq<JsonView>
    decreases s, k,
{
    if k <= 0 || k > s.len() {
        Seq::empty()
    } else {
        masked_items(s, k - 1).push(masked(s[k - 1]))
    }
}

/// The first `k` entries, masked.
pub open spec fn masked_entries(s: Seq<(Seq<char>, JsonView)>, k: int) -> Seq<(Seq<char>, JsonView)>
    decreases s, k,
{
    if k <= 0 || k > s.len() {
        Seq::empty()
    } else {
        masked_entries(s, k - 1).push(
            (s[k - 1].0, if is_sensitive_key(lowercase(s[k - 1].0)) {
                JsonView::Str("********"@)
            } else {
                masked(s[k - 1].1)
            }),
        )
    }
}

/// Whether `key` (in lowercase) contains a sensitive pattern.
pub fn key_is_sensitive(key: &str) -> (b: bool)
    ensures
        b == is_sensitive_key(lowercase(key@)),
{
    let lower = to_lowercase(key);
    let ps = sensitive_patterns();
    let mut i: usize = 0;
    proof {
        assert(ps@.len() == sensitive_pattern_list().len());
    }
    while i < ps.len()
        invariant
            i <= ps@.len(),
            str_views(ps@) == sensitive_pattern_list(),
            ps@.len() == sensitive_pattern_list().len(),
            lower@ == lowercase(key@),
            forall|j: int| 0 <= j < i ==> !contains_seq(lower@, #[trigger] sensitive_pattern_list()[j]),
        decreases ps.len() - i,
    {
        proof {
            assert(str_views(ps@)[i as int] == ps@[i as int]@);
        }
        if str_contains(lower.as_str(), ps[i]) {
            return true;
        }
        i = i + 1;
    }
    false
}

/// A copy of `v` with every entry under a sensitive key replaced by the
/// mask, at any depth.
#[verifier::loop_isolation(false)]
pub fn mask_value(v: &JsonValue) -> (r: JsonValue)
    ensures
        jview(r) == masked(jview(*v)),
    decreases v,
{
    match v {
        JsonValue::Object(entries) => {
            let mut out: Vec<(String, JsonValue)> = Vec::new();
            let mut i: usize = 0;
            while i < entries.len()
                invariant
                    i <= entries.len(),
                    out@.len() == i,
                    jview_entries(out@, i as int) == masked_entries(
                        jview_entries(entries@, entries@.len() as int),
                        i as int,
                    ),
                decreases entries.len() - i,
            {
                proof {
                    assert(decreases_to!(entries => entries[i as int]));
                    lemma_jview_entries_index(entries@, entries@.len() as int, i as int);
                }
                let k = entries[i].0.clone();
                let sensitive = key_is_sensitive(entries[i].0.as_str());
                let val = if sensitive {
                    JsonValue::String(MASKED_VALUE.to_owned())
                } else {
                    mask_value(&entries[i].1)
                };
                let ghost es = jview_entries(entries@, entries@.len() as int);
                proof {
                    assert(es[i as int] == (entries@[i as int].0@, jview(entries@[i as int].1)));
                    assert(k@ == es[i as int].0);
                    assert(jview(val) == if is_sensitive_key(lowercase(es[i as int].0)) {
                        JsonView::Str("********"@)
                    } else {
                        masked(es[i as int].1)
                    });
                }
                let ghost prev = out@;
                out.push((k, val));
                proof {
                    lemma_entries_prefix(prev, out@, i as int);
                    assert(jview_entries(out@, i + 1) == jview_entries(out@, i as int).push((k@, jview(val))));
                    assert(masked_entries(es, i + 1) == masked_entries(es, i as int).push(
                        (es[i as int].0, if is_sensitive_key(lowercase(es[i as int].0)) {
                            JsonView::Str("********"@)
                        } else {
                            masked(es[i as int].1)
                        }),
                    ));
                }
                i = i + 1;
            }
            proof {
                lemma_jview_entries_len(entries@, entries@.len() as int);
                assert(jview(*v) == JsonView::Object(jview_entries(entries@, entries@.len() as int)));
            }
            JsonValue::Object(out)
        },
        JsonValue::Array(items) => {
            let mut out: Vec<JsonValue> = Vec::new();
            let mut i: usize = 0;
            while i < items.len()
                invariant
                    i <= items.len(),
                    out@.len() == i,
                    jview_items(out@, i as int) == masked_items(jview_items(items@, items@.len() as int), i as int),
                decreases items.len() - i,
            {
                proof {
                    assert(decreases_to!(items => items[i as int]));
                    lemma_jview_items_index(items@, items@.len() as int, i as int);
                }
                let c = mask_value(&items[i]);
                let ghost prev = out@;
                out.push(c);
                proof {
                    lemma_items_prefix(prev, out@, i as int);
                }
                i = i + 1;
            }
            proof {
                lemma_jview_items_len(items@, items@.len() as int);
            }
            JsonValue::Array(out)
        },
        JsonValue::Null => JsonValue::Null,
        JsonValue::Bool(b) => JsonValue::Bool(*b),
        JsonValue::Number(n) => JsonValue::Number(crate::types::copy_number(n)),
        JsonValue::String(s) => JsonValue::String(s.clone()),
    }
}

// ---------------------------------------------------------------------------
// Configuration
// ---------------------------------------------------------------------------

/// Configuration for the debug callback.
#[derive(Debug)]
pub struct DebugConfig {
    /// Verbosity level (0-5).
    pub verbosity: u8,
    /// Mask sensitive values.
    pub mask_sensitive: bool,
    /// Show timestamps.
    pub show_timestamps: bool,
    /// Show task arguments.
    pub show_task_args: bool,
    /// Show all gathered facts.
    pub show_all_facts: bool,
    /// More patterns that mark a key as sensitive.
    pub custom_sensitive_patterns: Vec<String>,
}

/// `level`, capped at 5.
pub open spec fn cap5(level: u8) -> u8 {
    if level < 5 { level } else { 5 }
}

impl Default for DebugConfig {
    fn default() -> (c: Self)
        ensures
            c.verbosity == 5,
            c.mask_sensitive,
            c.show_timestamps,
            c.show_task_args,
            !c.show_all_facts,
            c.custom_sensitive_patterns@.len() == 0,
    {
        DebugConfig {
            verbosity: 5,
            mask_sensitive: true,
            show_timestamps: true,
            show_task_args: true,
            show_all_facts: false,
            custom_sensitive_patterns: Vec::new(),
        }
    }
}

impl DebugConfig {
    /// The default configuration.
    pub fn new() -> (c: Self)
        ensures
            c.verbosity == 5,
            c.mask_sensitive,
            c.show_timestamps,
            c.show_task_args,
            !c.show_all_facts,
            c.custom_sensitive_patterns@.len() == 0,
    {
        Self::default()
    }

    /// Sets the verbosity, capped at 5.
    pub fn with_verbosity(self, level: u8) -> (c: Self)
        ensures
            c.verbosity == cap5(level),
            c.mask_sensitive == self.mask_sensitive,
            c.show_timestamps == self.show_timestamps,
            c.show_task_args == self.show_task_args,
            c.show_all_facts == self.show_all_facts,
            c.custom_sensitive_patterns == self.custom_sensitive_patterns,
    {
        DebugConfig { verbosity: if level < 5 { level } else { 5 }, ..self }
    }

    /// Sets whether sensitive values are masked.
    pub fn with_mask_sensitive(self, mask: bool) -> (c: Self)
        ensures
            c.mask_sensitive == mask,
            c.verbosity == self.verbosity,
            c.show_timestamps == self.show_timestamps,
            c.show_task_args == self.show_task_args,
            c.show_all_facts == self.show_all_facts,
            c.custom_sensitive_patterns == self.custom_sensitive_patterns,
    {
        DebugConfig { mask_sensitive: mask, ..self }
    }

    /// Sets whether timestamps are shown.
    pub fn with_timestamps(self, show: bool) -> (c: Self)
        ensures
            c.show_timestamps == show,
            c.verbosity == self.verbosity,
            c.mask_sensitive == self.mask_sensitive,
            c.show_task_args == self.show_task_args,
            c.show_all_facts == self.show_all_facts,
            c.custom_sensitive_patterns == self.custom_sensitive_patterns,
    {
        DebugConfig { show_timestamps: show, ..self }
    }

    /// Sets whether task arguments are shown.
    pub fn with_task_args(self, show: bool) -> (c: Self)
        ensures
            c.show_task_args == show,
            c.verbosity == self.verbosity,
            c.mask_sensitive == self.mask_sensitive,
            c.show_timestamps == self.show_timestamps,
            c.show_all_facts == self.show_all_facts,
            c.custom_sensitive_patterns == self.custom_sensitive_patterns,
    {
        DebugConfig { show_task_args: show, ..self }
    }

    /// Sets whether all facts are shown.
    pub fn with_all_facts(self, show: bool) -> (c: Self)
        ensures
            c.show_all_facts == show,
            c.verbosity == self.verbosity,
            c.mask_sensitive == self.mask_sensitive,
            c.show_timestamps == self.show_timestamps,
            c.show_task_args == self.show_task_args,
            c.custom_sensitive_patterns == self.custom_sensitive_patterns,
    {
        DebugConfig { show_all_facts: show, ..self }
    }

    /// Sets more patterns that mark a key as sensitive.
    pub fn with_sensitive_patterns(self, patterns: Vec<String>) -> (c: Self)
        ensures
            c.custom_sensitive_patterns == patterns,
            c.verbosity == self.verbosity,
            c.mask_sensitive == self.mask_sensitive,
            c.show_timestamps == self.show_timestamps,
            c.show_task_args == self.show_task_args,
            c.show_all_facts == self.show_all_facts,
    {
        DebugConfig { custom_sensitive_patterns: patterns, ..self }
    }
}

// ---------------------------------------------------------------------------
// Formatting
// ---------------------------------------------------------------------------

/// A duration as the debug plugin shows it: `1h 01m 05s`, `1m 05s`,
/// `5.000s` or `500ms`.
pub open spec fn duration_text(secs: nat, millis: nat) -> Seq<char> {
    if secs >= 3600 {
        dec(secs / 3600) + "h "@ + dec_zero_padded((secs % 3600) / 60, 2) + "m "@ + dec_zero_padded(secs % 60, 2) + "s"@
    } else if secs >= 60 {
        dec(secs / 60) + "m "@ + dec_zero_padded(secs % 60, 2) + "s"@
    } else if secs > 0 {
        dec(secs) + "."@ + dec_zero_padded(millis, 3) + "s"@
    } else {
        dec(millis) + "ms"@
    }
}

/// Formats a duration as the debug plugin shows it.
pub fn format_duration(d: &Elapsed) -> (s: String)
    requires
        d.wf(),
    ensures
        s@ == duration_text(d.secs_of(), d.subsec_millis_of()),
{
    let secs = d.as_secs();
    let millis = d.subsec_millis();
    let mut s = String::new();
    if secs >= 3600 {
        push_dec(&mut s, secs / 3600);
        push_str(&mut s, "h ");
        push_dec_zero_padded(&mut s, (secs % 3600) / 60, 2);
        push_str(&mut s, "m ");
        push_dec_zero_padded(&mut s, secs % 60, 2);
        push_str(&mut s, "s");
    } else if secs >= 60 {
        push_dec(&mut s, secs / 60);
        push_str(&mut s, "m ");
        push_dec_zero_padded(&mut s, secs % 60, 2);
        push_str(&mut s, "s");
    } else if secs > 0 {
        push_dec(&mut s, secs);
        push_str(&mut s, ".");
        push_dec_zero_padded(&mut s, millis as u64, 3);
        push_str(&mut s, "s");
    } else {
        push_dec(&mut s, millis as u64);
        push_str(&mut s, "ms");
    }
    proof {
        assert(s@ =~= duration_text(d.secs_of(), d.subsec_millis_of()));
    }
    s
}

/// A separator line of 80 copies of `c`.
pub open spec fn separator_line(c: char) -> Seq<SpanView> {
    seq![(repeat_char(c, 80), color_style(Color::BrightBlack))]
}

fn separator(c: char) -> (l: Vec<Span>)
    ensures
        line_view(l@) == separator_line(c),
{
    let mut l = Vec::new();
    push_owned(&mut l, repeat_string(c, 80), Style::fg(Color::BrightBlack));
    proof {
        assert(line_view(l@) =~= separator_line(c));
    }
    l
}

/// A `key: value` line, indented.
pub open spec fn kv_line(key: Seq<char>, value: Seq<char>, indent: nat) -> Seq<SpanView> {
    seq![(repeat_char(' ', indent), plain_style()), (key, color_style(Color::Cyan)), (": "@ + value, plain_style())]
}

fn kv(key: &str, value: &str, indent: usize) -> (l: Vec<Span>)
    ensures
        line_view(l@) == kv_line(key@, value@, indent as nat),
{
    let mut l = Vec::new();
    push_owned(&mut l, repeat_string(' ', indent), Style::plain());
    push_span(&mut l, key, Style::fg(Color::Cyan));
    let mut t = String::new();
    push_str(&mut t, ": ");
    push_str(&mut t, value);
    push_owned(&mut l, t, Style::plain());
    proof {
        assert(line_view(l@) =~= kv_line(key@, value@, indent as nat));
    }
    l
}

/// The status label of a result, and its color.
pub open spec fn status_label(o: TaskOutcome) -> (Seq<char>, Color) {
    match o {
        TaskOutcome::Unchanged => ("OK"@, Color::Green),
        TaskOutcome::Changed => ("CHANGED"@, Color::Yellow),
        TaskOutcome::Failed => ("FAILED"@, Color::Red),
        TaskOutcome::Skipped => ("SKIPPED"@, Color::Cyan),
    }
}

/// A skipped task is labelled `SKIPPED`, else a task that did not
/// succeed `FAILED`, else a changed one `CHANGED`, else `OK`.
pub proof fn lemma_status_label(r: crate::types::ModuleResult)
    ensures
        r.skipped ==> status_label(crate::types::outcome_of(r)).0 == "SKIPPED"@,
        !r.skipped && !r.success ==> status_label(crate::types::outcome_of(r)).0 == "FAILED"@,
        !r.skipped && r.success && r.changed ==> status_label(crate::types::outcome_of(r)).0 == "CHANGED"@,
        !r.skipped && r.success && !r.changed ==> status_label(crate::types::outcome_of(r)).0 == "OK"@,
{
}

/// The status line of a result, then its message line when it has one
/// to show.
pub open spec fn status_lines(o: TaskOutcome, host: Seq<char>, duration: Seq<char>, msg: Option<Seq<char>>) -> Seq<
    Seq<SpanView>,
> {
    let (label, c) = status_label(o);
    let first = seq![
        ("["@, plain_style()),
        (label, bold_style(c)),
        ("] "@, plain_style()),
        (host, bold_style(Color::BrightWhite)),
        (" ("@, plain_style()),
        (duration, color_style(Color::BrightBlack)),
        (")"@, plain_style()),
    ];
    match msg {
        Some(m) => seq![first, seq![("  "@, plain_style()), ("Message"@, color_style(Color::Cyan)), (": "@ + m, plain_style())]],
        None => seq![first],
    }
}

fn status_spans(o: TaskOutcome, host: &str, duration: &str, msg: Option<&str>) -> (out: Vec<Vec<Span>>)
    ensures
        lines_view(out@) == status_lines(o, host@, duration@, match msg {
            Some(m) => Some(m@),
            None => None,
        }),
{
    let (label, c) = match o {
        TaskOutcome::Unchanged => ("OK", Color::Green),
        TaskOutcome::Changed => ("CHANGED", Color::Yellow),
        TaskOutcome::Failed => ("FAILED", Color::Red),
        TaskOutcome::Skipped => ("SKIPPED", Color::Cyan),
    };
    let mut l = Vec::new();
    push_span(&mut l, "[", Style::plain());
    push_span(&mut l, label, Style::bold(c));
    push_span(&mut l, "] ", Style::plain());
    push_span(&mut l, host, Style::bold(Color::BrightWhite));
    push_span(&mut l, " (", Style::plain());
    push_span(&mut l, duration, Style::fg(Color::BrightBlack));
    push_span(&mut l, ")", Style::plain());
    let mut out = Vec::new();
    push_line(&mut out, l);
    match msg {
        Some(m) => {
            let mut ml = Vec::new();
            push_span(&mut ml, "  ", Style::plain());
            push_span(&mut ml, "Message", Style::fg(Color::Cyan));
            let mut t = String::new();
            push_str(&mut t, ": ");
            push_str(&mut t, m);
            push_owned(&mut ml, t, Style::plain());
            push_line(&mut out, ml);
        },
        None => {},
    }
    proof {
        assert(lines_view(out@) =~~= status_lines(o, host@, duration@, match msg {
            Some(m) => Some(m@),
            None => None,
        }));
    }
    out
}

/// The lines of a pretty-printed JSON text, each indented by `indent`.
pub open spec fn indented_lines(text: Seq<char>, indent: nat) -> Seq<Seq<SpanView>> {
    let ls = lines_of(text);
    Seq::new(ls.len(), |i: int| seq![(repeat_char(' ', indent) + ls[i], plain_style())])
}

fn push_indented(out: &mut Vec<Vec<Span>>, text: &str, indent: usize)
    ensures
        lines_view(final(out)@) == lines_view(old(out)@) + indented_lines(text@, indent as nat),
{
    let ls = split_lines(text);
    let ghost start = lines_view(out@);
    let mut i: usize = 0;
    while i < ls.len()
        invariant
            i <= ls.len(),
            views(ls@) == lines_of(text@),
            lines_view(out@) == start + indented_lines(text@, indent as nat).subrange(0, i as int),
        decreases ls.len() - i,
    {
        let mut t = repeat_string(' ', indent);
        push_str(&mut t, ls[i].as_str());
        let mut l = Vec::new();
        push_owned(&mut l, t, Style::plain());
        proof {
            assert(views(ls@)[i as int] == ls@[i as int]@);
            assert(line_view(l@) =~= indented_lines(text@, indent as nat)[i as int]);
            assert(indented_lines(text@, indent as nat).subrange(0, i + 1) =~= indented_lines(
                text@,
                indent as nat,
            ).subrange(0, i as int).push(line_view(l@)));
        }
        push_line(out, l);
        i = i + 1;
    }
    proof {
        assert(indented_lines(text@, indent as nat).subrange(0, i as int) =~= indented_lines(text@, indent as nat));
    }
}

// ---------------------------------------------------------------------------
// Host statistics
// ---------------------------------------------------------------------------

/// Task counts and total task time for one host.
#[derive(Clone, Copy, Debug)]
pub struct HostStats {
    pub ok: u32,
    pub changed: u32,
    pub failed: u32,
    pub skipped: u32,
    /// Total time of the host's tasks, in nanoseconds.
    pub total_nanos: u128,
}

/// A host with nothing counted.
pub open spec fn zero_stats() -> HostStats {
    HostStats { ok: 0, changed: 0, failed: 0, skipped: 0, total_nanos: 0 }
}

/// The counts of `host`, zero if it has none yet.
pub open spec fn stats_of(m: Map<Seq<char>, HostStats>, host: Seq<char>) -> HostStats {
    if m.contains_key(host) {
        m[host]
    } else {
        zero_stats()
    }
}

/// The counts of a host after one more task with the given outcome and
/// duration.
pub open spec fn count_task(s: HostStats, o: TaskOutcome, nanos: u128) -> HostStats {
    let t = HostStats { total_nanos: (s.total_nanos + nanos) as u128, ..s };
    match o {
        TaskOutcome::Skipped => HostStats { skipped: wrap_inc(s.skipped), ..t },
        TaskOutcome::Failed => HostStats { failed: wrap_inc(s.failed), ..t },
        TaskOutcome::Changed => HostStats { changed: wrap_inc(s.changed), ..t },
        TaskOutcome::Unchanged => HostStats { ok: wrap_inc(s.ok), ..t },
    }
}

/// A finished task counts once, under its own kind: a skipped task as
/// skipped, else a task that did not succeed as failed, else a changed one
/// as changed, else as ok; the other counts stay as they were and the host's total time grows by the task's.
pub proof fn lemma_count_result(s: HostStats, r: crate::types::ModuleResult, nanos: u128)
    requires
        s.ok < u32::MAX,
        s.changed < u32::MAX,
        s.failed < u32::MAX,
        s.skipped < u32::MAX,
        s.total_nanos + nanos <= u128::MAX,
    ensures
        count_task(s, crate::types::outcome_of(r), nanos).total_nanos == s.total_nanos + nanos,
        count_task(s, crate::types::outcome_of(r), nanos).failed == s.failed + if !r.skipped && !r.success { 1int } else { 0int },
        count_task(s, crate::types::outcome_of(r), nanos).skipped == s.skipped + if r.skipped { 1int } else { 0int },
        count_task(s, crate::types::outcome_of(r), nanos).changed == s.changed + if !r.skipped && r.success && r.changed { 1int } else { 0int },
        count_task(s, crate::types::outcome_of(r), nanos).ok == s.ok + if !r.skipped && r.success && !r.changed { 1int } else { 0int },

{
}

// ---------------------------------------------------------------------------
// The callback
// ---------------------------------------------------------------------------

/// Verbose callback for troubleshooting.
#[derive(Debug)]
pub struct DebugCallback {
    config: DebugConfig,
    host_stats: HostTable<HostStats>,
    started: bool,
    playbook_name: Option<String>,
    has_failures: bool,
    variables: HostTable<JsonValue>,
    task_args: HostTable<JsonValue>,
}

/// `n` as a verbosity-gated list: `ls` if `cond`, else nothing.
pub open spec fn when(cond: bool, ls: Seq<Seq<SpanView>>) -> Seq<Seq<SpanView>> {
    if cond {
        ls
    } else {
        Seq::empty()
    }
}

/// The heading of a task or play: `LABEL [name] ****`.
pub open spec fn heading_line(label: Seq<char>, name: Seq<char>) -> Seq<SpanView> {
    let n = if (utf8_len(name) as usize) + 8 < 70 { 70 - ((utf8_len(name) as usize) + 8) } else { 0 };
    seq![
        (label, bold_style(Color::BrightWhite)),
        (" ["@, plain_style()),
        (name, bold_style(Color::Yellow)),
        ("] "@, plain_style()),
        (repeat_char('*', n as nat), color_style(Color::BrightBlack)),
    ]
}

fn heading(label: &str, name: &str) -> (l: Vec<Span>)
    ensures
        line_view(l@) == heading_line(label@, name@),
{
    let len = byte_len(name);
    let n: usize = if len < 62 { 70 - (len + 8) } else { 0 };
    let mut l = Vec::new();
    push_span(&mut l, label, Style::bold(Color::BrightWhite));
    push_span(&mut l, " [", Style::plain());
    push_span(&mut l, name, Style::bold(Color::Yellow));
    push_span(&mut l, "] ", Style::plain());
    push_owned(&mut l, repeat_string('*', n), Style::fg(Color::BrightBlack));
    proof {
        assert(line_view(l@) =~= heading_line(label@, name@));
    }
    l
}

/// A label line such as `  Arguments:`.
pub open spec fn label_line(label: Seq<char>) -> Seq<SpanView> {
    seq![("  "@, plain_style()), (label, color_style(Color::Cyan)), (":"@, plain_style())]
}

fn label(text: &str) -> (l: Vec<Span>)
    ensures
        line_view(l@) == label_line(text@),
{
    let mut l = Vec::new();
    push_span(&mut l, "  ", Style::plain());
    push_span(&mut l, text, Style::fg(Color::Cyan));
    push_span(&mut l, ":", Style::plain());
    proof {
        assert(line_view(l@) =~= label_line(text@));
    }
    l
}

/// A `    name: value` line with the name in bright white.
pub open spec fn named_line(name: Seq<char>, value: Seq<char>) -> Seq<SpanView> {
    seq![("    "@, plain_style()), (name, color_style(Color::BrightWhite)), (": "@ + value, plain_style())]
}

fn named(name: &str, value: &str) -> (l: Vec<Span>)
    ensures
        line_view(l@) == named_line(name@, value@),
{
    let mut l = Vec::new();
    push_span(&mut l, "    ", Style::plain());
    push_span(&mut l, name, Style::fg(Color::BrightWhite));
    let mut t = String::new();
    push_str(&mut t, ": ");
    push_str(&mut t, value);
    push_owned(&mut l, t, Style::plain());
    proof {
        assert(line_view(l@) =~= named_line(name@, value@));
    }
    l
}

/// A pretty-printed value as a variable line shows it: each line indented
/// by six spaces, joined by newlines, and trimmed at both ends.
pub open spec fn shown_json(pretty: Seq<char>) -> Seq<char> {
    let ls = lines_of(pretty);
    trimmed(join_seq(Seq::new(ls.len(), |i: int| repeat_char(' ', 6) + ls[i]), "\n"@))
}

fn shown_json_text(pretty: &str) -> (r: String)
    ensures
        r@ == shown_json(pretty@),
{
    let ls = split_lines(pretty);
    let ghost want = Seq::new(lines_of(pretty@).len(), |i: int| repeat_char(' ', 6) + lines_of(pretty@)[i]);
    let mut ind: Vec<String> = Vec::new();
    let mut i: usize = 0;
    while i < ls.len()
        invariant
            i <= ls.len(),
            views(ls@) == lines_of(pretty@),
            views(ind@) == want.subrange(0, i as int),
            want == Seq::new(lines_of(pretty@).len(), |j: int| repeat_char(' ', 6) + lines_of(pretty@)[j]),
        decreases ls.len() - i,
    {
        let mut t = repeat_string(' ', 6);
        push_str(&mut t, ls[i].as_str());
        let ghost prev = views(ind@);
        proof {
            assert(views(ls@)[i as int] == ls@[i as int]@);
            assert(want[i as int] == t@);
        }
        ind.push(t);
        proof {
            assert(views(ind@) =~= prev.push(want[i as int]));
            assert(want.subrange(0, i + 1) =~= want.subrange(0, i as int).push(want[i as int]));
        }
        i = i + 1;
    }
    proof {
        assert(want.subrange(0, i as int) =~= want);
    }
    let joined = join_strings(&ind, "\n");
    trim_text(joined.as_str())
}

/// One line per variable, each with its shown value.
pub open spec fn variable_lines(vars: Seq<(Seq<char>, Seq<char>)>) -> Seq<Seq<SpanView>> {
    Seq::new(vars.len(), |i: int| named_line(vars[i].0, shown_json(vars[i].1)))
}

/// The characters of name and text pairs.
pub open spec fn pair_views(v: Seq<(String, String)>) -> Seq<(Seq<char>, Seq<char>)> {
    Seq::new(v.len(), |i: int| (v[i].0@, v[i].1@))
}

/// The characters of each text of a table.
pub open spec fn text_map(m: Map<Seq<char>, String>) -> Map<Seq<char>, Seq<char>> {
    m.map_values(|s: String| s@)
}

/// The compact text of each value of a table.
pub open spec fn compact_map(m: Map<Seq<char>, JsonValue>) -> Map<Seq<char>, Seq<char>> {
    m.map_values(|v: JsonValue| compact_text(jview(v)))
}

fn compact_table(facts: &HostTable<JsonValue>) -> (r: HostTable<String>)
    requires
        facts.wf(),
    ensures
        r.wf(),
        r@.dom() == facts@.dom(),
        text_map(r@) == compact_map(facts@),
{
    let mut r: HostTable<String> = HostTable::new();
    let n = facts.len();
    proof {
        facts.lemma_view();
    }
    let mut i: usize = 0;
    while i < n
        invariant
            i <= n,
            n == facts.names().len(),
            facts.wf(),
            r.wf(),
            forall|k: Seq<char>| facts@.contains_key(k) <==> facts.names().contains(k),
            forall|k: Seq<char>| #[trigger] r@.contains_key(k) <==> facts.names().subrange(0, i as int).contains(k),
            forall|k: Seq<char>| #[trigger] r@.contains_key(k) ==> facts@.contains_key(k) && r@[k]@ == compact_text(
                jview(facts@[k]),
            ),
        decreases n - i,
    {
        let (k, v) = facts.entry_ref(i);
        let t = compact_json(v);
        r.set(k.as_str(), t);
        proof {
            let pre = facts.names().subrange(0, i as int);
            let cur = facts.names().subrange(0, i + 1);
            assert(cur =~= pre.push(k@));
            assert forall|x: Seq<char>| #[trigger] r@.contains_key(x) <==> cur.contains(x) by {
                if cur.contains(x) && x != k@ {
                    let j = choose|j: int| 0 <= j < cur.len() && cur[j] == x;
                    assert(pre[j] == x);
                }
                if pre.contains(x) {
                    let j = choose|j: int| 0 <= j < pre.len() && pre[j] == x;
                    assert(cur[j] == x);
                }
                if x == k@ {
                    assert(cur[i as int] == x);
                }
            }
        }
        i = i + 1;
    }
    proof {
        assert(facts.names().subrange(0, i as int) =~= facts.names());
        assert(r@.dom() =~= facts@.dom());
        assert(text_map(r@) =~= compact_map(facts@));
    }
    r
}

/// The facts shown at verbosity 4, in this order, when present.
pub open spec fn key_fact_names() -> Seq<Seq<char>> {
    seq!["os_family"@, "os_arch"@, "hostname"@, "user"@]
}

/// One line per name of `names` that `facts` holds, with its text.
pub open spec fn key_fact_lines(names: Seq<Seq<char>>, facts: Map<Seq<char>, Seq<char>>) -> Seq<Seq<SpanView>>
    decreases names.len(),
{
    if names.len() == 0 {
        Seq::empty()
    } else {
        let n = names.last();
        key_fact_lines(names.drop_last(), facts) + if facts.contains_key(n) {
            seq![named_line(n, facts[n])]
        } else {
            Seq::<Seq<SpanView>>::empty()
        }
    }
}

/// The heading shown when facts were gathered on a host.
pub open spec fn facts_heading(host: Seq<char>) -> Seq<SpanView> {
    seq![
        ("GATHERING FACTS"@, bold_style(Color::BrightWhite)),
        (" ["@, plain_style()),
        (host, bold_style(Color::Yellow)),
        ("] "@, plain_style()),
        (repeat_char('*', 55), color_style(Color::BrightBlack)),
    ]
}

/// The host summary of a play: all hosts when there are at most five,
/// otherwise the first five and how many more.
pub open spec fn host_summary(hosts: Seq<Seq<char>>) -> Seq<char> {
    let list = if hosts.len() <= 5 {
        join_seq(hosts, ", "@)
    } else {
        join_seq(hosts.subrange(0, 5), ", "@) + ", ... and "@ + dec((hosts.len() - 5) as nat) + " more"@
    };
    dec(hosts.len()) + " ("@ + list + ")"@
}

impl DebugCallback {
    /// The tables are well formed and every host's total time is a valid
    /// duration.
    pub closed spec fn wf(&self) -> bool {
        &&& self.host_stats.wf()
        &&& self.variables.wf()
        &&& self.task_args.wf()
        &&& forall|k: Seq<char>| #[trigger] self.host_stats@.contains_key(k)
            ==> self.host_stats@[k].total_nanos <= crate::types::max_elapsed_nanos()
    }

    /// The verbosity level.
    pub closed spec fn spec_verbosity(&self) -> u8 {
        self.config.verbosity
    }

    /// Whether timestamps are shown.
    pub closed spec fn spec_timestamps(&self) -> bool {
        self.config.show_timestamps
    }

    /// The counts per host.
    pub closed spec fn stats(&self) -> Map<Seq<char>, HostStats> {
        self.host_stats@
    }

    /// Whether task arguments are shown.
    pub closed spec fn spec_task_args(&self) -> bool {
        self.config.show_task_args
    }

    /// Whether all gathered facts are shown.
    pub closed spec fn spec_all_facts(&self) -> bool {
        self.config.show_all_facts
    }

    /// Whether a task failed.
    pub closed spec fn spec_has_failures(&self) -> bool {
        self.has_failures
    }

    /// Whether a playbook started.
    pub closed spec fn spec_started(&self) -> bool {
        self.started
    }

    /// A debug callback with the default configuration.
    pub fn new() -> (c: Self)
        ensures
            c.wf(),
            c.spec_verbosity() == 5,
            c.stats() == Map::<Seq<char>, HostStats>::empty(),
            !c.spec_has_failures(),
    {
        Self::with_config(DebugConfig::default())
    }

    /// A debug callback with the given configuration.
    pub fn with_config(config: DebugConfig) -> (c: Self)
        ensures
            c.wf(),
            c.spec_verbosity() == config.verbosity,
            c.spec_timestamps() == config.show_timestamps,
            c.spec_task_args() == config.show_task_args,
            c.spec_all_facts() == config.show_all_facts,
            c.spec_masks() == config.mask_sensitive,
            c.stats() == Map::<Seq<char>, HostStats>::empty(),
            c.spec_variables() == Map::<Seq<char>, JsonValue>::empty(),
            c.spec_task_args_table() == Map::<Seq<char>, JsonValue>::empty(),
            !c.spec_has_failures(),
            !c.spec_started(),
    {
        DebugCallback {
            config,
            host_stats: HostTable::new(),
            started: false,
            playbook_name: None,
            has_failures: false,
            variables: HostTable::new(),
            task_args: HostTable::new(),
        }
    }

}

impl Default for DebugCallback {
    /// A debug callback with the default configuration.
    fn default() -> (c: Self)
        ensures
            c.wf(),
            c.spec_verbosity() == 5,
            c.spec_masks(),
            c.spec_timestamps(),
            c.spec_task_args(),
            !c.spec_all_facts(),
            c.stats() == Map::<Seq<char>, HostStats>::empty(),
            c.spec_variables() == Map::<Seq<char>, JsonValue>::empty(),
            !c.spec_has_failures(),
            !c.spec_started(),
    {
        Self::with_config(DebugConfig::default())
    }
}

impl DebugCallback {
    /// A debug callback with the given verbosity (capped at 5).
    pub fn with_verbosity(verbosity: u8) -> (c: Self)
        ensures
            c.wf(),
            c.spec_verbosity() == cap5(verbosity),
            c.stats() == Map::<Seq<char>, HostStats>::empty(),
            !c.spec_has_failures(),
    {
        Self::with_config(DebugConfig::default().with_verbosity(verbosity))
    }

    /// The configuration.
    pub fn config(&self) -> (c: &DebugConfig)
        ensures
            c.verbosity == self.spec_verbosity(),
            c.show_timestamps == self.spec_timestamps(),
            c.show_task_args == self.spec_task_args(),
            c.mask_sensitive == self.spec_masks(),
    {
        &self.config
    }

    /// The variables shown at the start of a play.
    pub closed spec fn spec_variables(&self) -> Map<Seq<char>, JsonValue> {
        self.variables@
    }

    /// The arguments of the current task.
    pub closed spec fn spec_task_args_table(&self) -> Map<Seq<char>, JsonValue> {
        self.task_args@
    }

    /// Replaces the variables shown at the start of a play.
    pub fn set_variables(&mut self, vars: HostTable<JsonValue>)
        requires
            old(self).wf(),
            vars.wf(),
        ensures
            final(self).wf(),
            final(self).spec_variables() == vars@,
            final(self).spec_task_args_table() == old(self).spec_task_args_table(),
            final(self).stats() == old(self).stats(),
            final(self).spec_verbosity() == old(self).spec_verbosity(),
            final(self).spec_has_failures() == old(self).spec_has_failures(),
            final(self).spec_started() == old(self).spec_started(),
    {
        self.variables = vars;
    }

    /// Replaces the arguments of the current task.
    pub fn set_task_args(&mut self, args: HostTable<JsonValue>)
        requires
            old(self).wf(),
            args.wf(),
        ensures
            final(self).wf(),
            final(self).spec_task_args_table() == args@,
            final(self).spec_variables() == old(self).spec_variables(),
            final(self).stats() == old(self).stats(),
            final(self).spec_verbosity() == old(self).spec_verbosity(),
            final(self).spec_has_failures() == old(self).spec_has_failures(),
            final(self).spec_started() == old(self).spec_started(),
    {
        self.task_args = args;
    }

    /// The variables shown at the start of a play.
    pub fn variables(&self) -> (r: &HostTable<JsonValue>)
        ensures
            r@ == self.spec_variables(),
    {
        &self.variables
    }

    /// The arguments of the current task.
    pub fn task_args(&self) -> (r: &HostTable<JsonValue>)
        ensures
            r@ == self.spec_task_args_table(),
    {
        &self.task_args
    }

    /// Whether sensitive values are masked.
    pub closed spec fn spec_masks(&self) -> bool {
        self.config.mask_sensitive
    }

    /// The result data of a task as shown: masked when masking is on, then
    /// pretty-printed.
    pub open spec fn shown_data(&self, result: ExecutionResult) -> Option<Seq<char>> {
        match result.result.data {
            Some(d) => Some(pretty_text(if self.spec_masks() { masked(jview(d)) } else { jview(d) })),
            None => None,
        }
    }

    /// The value as the debug output shows it: masked when masking is on,
    /// otherwise unchanged.
    pub fn displayed_value(&self, v: &JsonValue) -> (r: JsonValue)
        ensures
            jview(r) == (if self.spec_masks() { masked(jview(*v)) } else { jview(*v) }),
    {
        if self.config.mask_sensitive {
            mask_value(v)
        } else {
            copy_json(v)
        }
    }

    /// Whether a task failed.
    pub fn has_failures(&self) -> (b: bool)
        ensures
            b == self.spec_has_failures(),
    {
        self.has_failures
    }

    /// The verbosity level.
    pub fn verbosity(&self) -> (v: u8)
        ensures
            v == self.spec_verbosity(),
    {
        self.config.verbosity
    }

    /// Sets the verbosity, capped at 5.
    pub fn set_verbosity(&mut self, level: u8)
        ensures
            final(self).spec_verbosity() == cap5(level),
            final(self).stats() == old(self).stats(),
            final(self).wf() == old(self).wf(),
            final(self).spec_has_failures() == old(self).spec_has_failures(),
    {
        self.config.verbosity = if level < 5 { level } else { 5 };
    }

    /// The counts of `host`, if it has any.
    pub fn host_stats(&self, host: &str) -> (r: Option<HostStats>)
        requires
            self.wf(),
        ensures
            r.is_some() == self.stats().contains_key(host@),
            r.is_some() ==> r.unwrap() == self.stats()[host@],
    {
        self.host_stats.get(host)
    }

    /// A playbook starts: counts and the failure flag are reset; at
    /// verbosity 1 and above a banner is shown, with the start time
    /// (`timestamp`) from verbosity 2 when timestamps are on.
    pub fn on_playbook_start(&mut self, name: &str, timestamp: &str) -> (out: Vec<Vec<Span>>)
        requires
            old(self).wf(),
        ensures
            final(self).wf(),
            final(self).stats() == Map::<Seq<char>, HostStats>::empty(),
            !final(self).spec_has_failures(),
            final(self).spec_started(),
            final(self).spec_verbosity() == old(self).spec_verbosity(),
            final(self).spec_timestamps() == old(self).spec_timestamps(),
            lines_view(out@) == when(
                old(self).spec_verbosity() >= 1,
                seq![
                    Seq::<SpanView>::empty(),
                    separator_line('='),
                    seq![("PLAYBOOK:"@, bold_style(Color::BrightWhite)), (" "@, plain_style()), (name@, bold_style(Color::Yellow))],
                    separator_line('='),
                ] + when(
                    old(self).spec_verbosity() >= 2 && old(self).spec_timestamps(),
                    seq![kv_line("Started"@, timestamp@, 2)],
                ) + seq![separator_line('='), Seq::<SpanView>::empty()],
            ),
    {
        self.started = true;
        self.playbook_name = Some(name.to_owned());
        self.host_stats.clear();
        self.has_failures = false;
        let mut out = Vec::new();
        if self.config.verbosity >= 1 {
            push_line(&mut out, blank());
            push_line(&mut out, separator('='));
            let mut l = Vec::new();
            push_span(&mut l, "PLAYBOOK:", Style::bold(Color::BrightWhite));
            push_span(&mut l, " ", Style::plain());
            push_span(&mut l, name, Style::bold(Color::Yellow));
            push_line(&mut out, l);
            push_line(&mut out, separator('='));
            if self.config.verbosity >= 2 && self.config.show_timestamps {
                push_line(&mut out, kv("Started", timestamp, 2));
            }
            push_line(&mut out, separator('='));
            push_line(&mut out, blank());
        }
        proof {
            assert(lines_view(out@) =~~= when(
                self.config.verbosity >= 1,
                seq![
                    Seq::<SpanView>::empty(),
                    separator_line('='),
                    seq![("PLAYBOOK:"@, bold_style(Color::BrightWhite)), (" "@, plain_style()), (name@, bold_style(Color::Yellow))],
                    separator_line('='),
                ] + when(
                    self.config.verbosity >= 2 && self.config.show_timestamps,
                    seq![kv_line("Started"@, timestamp@, 2)],
                ) + seq![separator_line('='), Seq::<SpanView>::empty()],
            ));
        }
        out
    }

    /// A play starts: its hosts get (empty) counts; at verbosity 1 and above
    /// a heading is shown, from verbosity 2 with a host summary, and from
    /// verbosity 4 the variables when there are any. `shown_vars` holds each
    /// variable's name and pretty-printed value (already masked when masking
    /// is on), in the order of the variables set.
    fn play_start_with(&mut self, name: &str, hosts: &Vec<String>, shown_vars: &Vec<(String, String)>) -> (out: Vec<
        Vec<Span>,
    >)
        requires
            old(self).wf(),
        ensures
            final(self).wf(),
            forall|k: Seq<char>| #[trigger] final(self).stats().contains_key(k) <==> (old(self).stats().contains_key(k)
                || views(hosts@).contains(k)),
            forall|k: Seq<char>| #[trigger] final(self).stats().contains_key(k) ==> final(self).stats()[k] == stats_of(
                old(self).stats(),
                k,
            ),
            final(self).spec_verbosity() == old(self).spec_verbosity(),
            final(self).spec_has_failures() == old(self).spec_has_failures(),
            lines_view(out@) == when(
                old(self).spec_verbosity() >= 1,
                seq![Seq::<SpanView>::empty(), separator_line('='), heading_line("PLAY"@, name@), separator_line('=')]
                    + when(old(self).spec_verbosity() >= 2, seq![kv_line("Hosts"@, host_summary(views(hosts@)), 2)]
                        + when(old(self).spec_verbosity() >= 4 && shown_vars@.len() > 0,
                            seq![label_line("Variables"@)] + variable_lines(pair_views(shown_vars@))))
                    + seq![Seq::<SpanView>::empty()],
            ),
            final(self).spec_variables() == old(self).spec_variables(),
            final(self).spec_task_args_table() == old(self).spec_task_args_table(),
            final(self).spec_masks() == old(self).spec_masks(),
            final(self).spec_all_facts() == old(self).spec_all_facts(),
            final(self).spec_task_args() == old(self).spec_task_args(),
            final(self).spec_timestamps() == old(self).spec_timestamps(),
            final(self).spec_started() == old(self).spec_started(),
    {
        let mut i: usize = 0;
        while i < hosts.len()
            invariant
                i <= hosts.len(),
                self.host_stats.wf(),
                self.variables == old(self).variables,
                self.task_args == old(self).task_args,
                self.config == old(self).config,
                self.started == old(self).started,
                forall|k: Seq<char>| #[trigger] self.stats().contains_key(k) <==> (old(self).stats().contains_key(k)
                    || views(hosts@.subrange(0, i as int)).contains(k)),
                forall|k: Seq<char>| #[trigger] self.stats().contains_key(k) ==> self.stats()[k] == stats_of(
                    old(self).stats(),
                    k,
                ),
                self.config.verbosity == old(self).config.verbosity,
                self.has_failures == old(self).has_failures,
                forall|k: Seq<char>| #[trigger] self.host_stats@.contains_key(k)
                    ==> self.host_stats@[k].total_nanos <= crate::types::max_elapsed_nanos(),
            decreases hosts.len() - i,
        {
            let ghost before = self.stats();
            let z = HostStats { ok: 0, changed: 0, failed: 0, skipped: 0, total_nanos: 0 };
            self.host_stats.ensure(hosts[i].as_str(), z);
            proof {
                let k0 = hosts@[i as int]@;
                assert forall|k: Seq<char>| #[trigger] self.stats().contains_key(k) implies self.stats()[k] == stats_of(
                    old(self).stats(),
                    k,
                ) by {
                    if before.contains_key(k) {
                        assert(self.stats()[k] == before[k]);
                    } else {
                        assert(k == k0);
                        assert(!old(self).stats().contains_key(k));
                    }
                }
                let prev = views(hosts@.subrange(0, i as int));
                let cur = views(hosts@.subrange(0, i + 1));
                assert(cur =~= prev.push(hosts@[i as int]@));
                assert forall|k: Seq<char>| cur.contains(k) <==> (prev.contains(k) || k == hosts@[i as int]@) by {
                    if cur.contains(k) {
                        let j = choose|j: int| 0 <= j < cur.len() && cur[j] == k;
                        if j < prev.len() {
                            assert(prev[j] == k);
                        }
                    }
                    if prev.contains(k) {
                        let j = choose|j: int| 0 <= j < prev.len() && prev[j] == k;
                        assert(cur[j] == k);
                    }
                    if k == hosts@[i as int]@ {
                        assert(cur[i as int] == k);
                    }
                }
            }
            i = i + 1;
        }
        proof {
            assert(hosts@.subrange(0, i as int) =~= hosts@);
            assert(views(hosts@.subrange(0, i as int)) =~= views(hosts@));
        }
        let mut out = Vec::new();
        if self.config.verbosity >= 1 {
            push_line(&mut out, blank());
            push_line(&mut out, separator('='));
            push_line(&mut out, heading("PLAY", name));
            push_line(&mut out, separator('='));
            let ghost before_hosts = lines_view(out@);
            if self.config.verbosity >= 2 {
                let summary = host_summary_text(hosts);
                push_line(&mut out, kv("Hosts", summary.as_str(), 2));
                if self.config.verbosity >= 4 && shown_vars.len() > 0 {
                    push_line(&mut out, label("Variables"));
                    let ghost start = lines_view(out@);
                    let mut j: usize = 0;
                    while j < shown_vars.len()
                        invariant
                            j <= shown_vars.len(),
                            lines_view(out@) == start + variable_lines(pair_views(shown_vars@)).subrange(0, j as int),
                        decreases shown_vars.len() - j,
                    {
                        let text = shown_json_text(shown_vars[j].1.as_str());
                        let l = named(shown_vars[j].0.as_str(), text.as_str());
                        proof {
                            assert(line_view(l@) == variable_lines(pair_views(shown_vars@))[j as int]);
                        }
                        push_line(&mut out, l);
                        proof {
                            assert(variable_lines(pair_views(shown_vars@)).subrange(0, j + 1) =~= variable_lines(pair_views(shown_vars@)).subrange(
                                0,
                                j as int,
                            ).push(line_view(l@)));
                        }
                        j = j + 1;
                    }
                    proof {
                        assert(variable_lines(pair_views(shown_vars@)).subrange(0, j as int) =~= variable_lines(pair_views(shown_vars@)));
                    }
                }
            }
            push_line(&mut out, blank());
        }
        proof {
            assert(lines_view(out@) =~~= when(
                self.config.verbosity >= 1,
                seq![Seq::<SpanView>::empty(), separator_line('='), heading_line("PLAY"@, name@), separator_line('=')]
                    + when(self.config.verbosity >= 2, seq![kv_line("Hosts"@, host_summary(views(hosts@)), 2)]
                        + when(self.config.verbosity >= 4 && shown_vars@.len() > 0,
                            seq![label_line("Variables"@)] + variable_lines(pair_views(shown_vars@))))
                    + seq![Seq::<SpanView>::empty()],
            ));
        }
        out
    }

    /// A play ends: shown from verbosity 2.
    pub fn on_play_end(&self, name: &str, success: bool) -> (out: Vec<Vec<Span>>)
        ensures
            lines_view(out@) == when(
                self.spec_verbosity() >= 2,
                seq![
                    Seq::<SpanView>::empty(),
                    seq![
                        ("PLAY END:"@, color_style(Color::BrightBlack)),
                        (" ["@, plain_style()),
                        (name@, color_style(Color::BrightWhite)),
                        ("] "@, plain_style()),
                        if success { ("completed"@, color_style(Color::Green)) } else { ("failed"@, bold_style(Color::Red)) },
                    ],
                ],
            ),
    {
        let mut out = Vec::new();
        if self.config.verbosity >= 2 {
            push_line(&mut out, blank());
            let mut l = Vec::new();
            push_span(&mut l, "PLAY END:", Style::fg(Color::BrightBlack));
            push_span(&mut l, " [", Style::plain());
            push_span(&mut l, name, Style::fg(Color::BrightWhite));
            push_span(&mut l, "] ", Style::plain());
            if success {
                push_span(&mut l, "completed", Style::fg(Color::Green));
            } else {
                push_span(&mut l, "failed", Style::bold(Color::Red));
            }
            push_line(&mut out, l);
        }
        proof {
            assert(lines_view(out@) =~~= when(
                self.config.verbosity >= 2,
                seq![
                    Seq::<SpanView>::empty(),
                    seq![
                        ("PLAY END:"@, color_style(Color::BrightBlack)),
                        (" ["@, plain_style()),
                        (name@, color_style(Color::BrightWhite)),
                        ("] "@, plain_style()),
                        if success { ("completed"@, color_style(Color::Green)) } else { ("failed"@, bold_style(Color::Red)) },
                    ],
                ],
            ));
        }
        out
    }

    /// A task starts on a host: at verbosity 1 and above its heading, from
    /// verbosity 2 the host, and from verbosity 3 (when configured) its
    /// arguments (`args_pretty`, pretty-printed and already masked when
    /// masking is on; `None` when there are none).
    fn task_start_with(&self, name: &str, host: &str, args_pretty: Option<&str>) -> (out: Vec<Vec<Span>>)
        ensures
            lines_view(out@) == when(
                self.spec_verbosity() >= 1,
                seq![separator_line('-'), heading_line("TASK"@, name@), separator_line('-')],
            ) + when(
                self.spec_verbosity() >= 2,
                seq![kv_line("Host"@, host@, 2)] + when(
                    self.spec_verbosity() >= 3 && self.spec_task_args() && args_pretty is Some,
                    seq![seq![("  "@, plain_style()), ("Arguments"@, color_style(Color::Cyan)), (":"@, plain_style())]]
                        + indented_lines(match args_pretty { Some(a) => a@, None => Seq::empty() }, 4),
                ) + seq![Seq::<SpanView>::empty()],
            ),
    {
        let v = self.config.verbosity;
        let mut out = Vec::new();
        if v >= 1 {
            push_line(&mut out, separator('-'));
            push_line(&mut out, heading("TASK", name));
            push_line(&mut out, separator('-'));
        }
        let ghost after_heading = lines_view(out@);
        if v >= 2 {
            push_line(&mut out, kv("Host", host, 2));
            let ghost after_host = lines_view(out@);
            if v >= 3 && self.config.show_task_args {
                match args_pretty {
                    Some(a) => {
                        let mut l = Vec::new();
                        push_span(&mut l, "  ", Style::plain());
                        push_span(&mut l, "Arguments", Style::fg(Color::Cyan));
                        push_span(&mut l, ":", Style::plain());
                        push_line(&mut out, l);
                        push_indented(&mut out, a, 4);
                    },
                    None => {},
                }
            }
            proof {
                assert(lines_view(out@) =~~= after_host + when(
                    v >= 3 && self.config.show_task_args && args_pretty is Some,
                    seq![seq![("  "@, plain_style()), ("Arguments"@, color_style(Color::Cyan)), (":"@, plain_style())]]
                        + indented_lines(match args_pretty { Some(a) => a@, None => Seq::empty() }, 4),
                ));
            }
            push_line(&mut out, blank());
        }
        proof {
            assert(lines_view(out@) =~~= when(
                v >= 1,
                seq![separator_line('-'), heading_line("TASK"@, name@), separator_line('-')],
            ) + when(
                v >= 2,
                seq![kv_line("Host"@, host@, 2)] + when(
                    v >= 3 && self.config.show_task_args && args_pretty is Some,
                    seq![seq![("  "@, plain_style()), ("Arguments"@, color_style(Color::Cyan)), (":"@, plain_style())]]
                        + indented_lines(match args_pretty { Some(a) => a@, None => Seq::empty() }, 4),
                ) + seq![Seq::<SpanView>::empty()],
            ));
        }
        out
    }

    /// A value as shown: masked when masking is on.
    pub open spec fn mask_of(&self, v: JsonView) -> JsonView {
        if self.spec_masks() {
            masked(v)
        } else {
            v
        }
    }

    /// The names of the variables, in the order they were set.
    pub closed spec fn spec_variable_names(&self) -> Seq<Seq<char>> {
        self.variables.names()
    }

    /// Each variable with its value as shown: masked as configured, then
    /// pretty-printed.
    pub open spec fn vars_shown(&self) -> Seq<(Seq<char>, Seq<char>)> {
        let ns = self.spec_variable_names();
        Seq::new(ns.len(), |i: int| (ns[i], pretty_text(self.mask_of(jview(self.spec_variables()[ns[i]])))))
    }

    /// The task's arguments as shown (one object, masked as configured,
    /// then pretty-printed), when there are any.
    pub closed spec fn args_shown(&self) -> Option<Seq<char>> {
        if self.task_args.names().len() > 0 {
            Some(pretty_text(self.mask_of(JsonView::Object(table_entries(self.task_args)))))
        } else {
            None
        }
    }

    fn shown_variables(&self) -> (r: Vec<(String, String)>)
        requires
            self.wf(),
        ensures
            pair_views(r@) == self.vars_shown(),
    {
        let mut r: Vec<(String, String)> = Vec::new();
        let n = self.variables.len();
        let mut i: usize = 0;
        while i < n
            invariant
                i <= n,
                n == self.variables.names().len(),
                self.wf(),
                pair_views(r@) == self.vars_shown().subrange(0, i as int),
            decreases n - i,
        {
            let (k, v) = self.variables.entry_ref(i);
            let t = pretty_json(&self.displayed_value(v));
            let ghost before = pair_views(r@);
            r.push((k.clone(), t));
            proof {
                assert(pair_views(r@) =~= before.push((k@, t@)));
                assert(self.vars_shown().subrange(0, i + 1) =~= self.vars_shown().subrange(0, i as int).push((k@, t@)));
            }
            i = i + 1;
        }
        proof {
            assert(self.vars_shown().subrange(0, i as int) =~= self.vars_shown());
        }
        r
    }

    /// A play starts: its hosts get (empty) counts; at verbosity 1 and above
    /// a heading is shown, from verbosity 2 with a host summary, and from
    /// verbosity 4 the variables when there are any, each masked as
    /// configured and pretty-printed, in the order they were set.
    pub fn on_play_start(&mut self, name: &str, hosts: &Vec<String>) -> (out: Vec<Vec<Span>>)
        requires
            old(self).wf(),
        ensures
            final(self).wf(),
            forall|k: Seq<char>| #[trigger] final(self).stats().contains_key(k) <==> (old(self).stats().contains_key(k)
                || views(hosts@).contains(k)),
            forall|k: Seq<char>| #[trigger] final(self).stats().contains_key(k) ==> final(self).stats()[k] == stats_of(
                old(self).stats(),
                k,
            ),
            final(self).spec_verbosity() == old(self).spec_verbosity(),
            final(self).spec_has_failures() == old(self).spec_has_failures(),
            lines_view(out@) == when(
                old(self).spec_verbosity() >= 1,
                seq![Seq::<SpanView>::empty(), separator_line('='), heading_line("PLAY"@, name@), separator_line('=')]
                    + when(old(self).spec_verbosity() >= 2, seq![kv_line("Hosts"@, host_summary(views(hosts@)), 2)]
                        + when(old(self).spec_verbosity() >= 4 && old(self).vars_shown().len() > 0,
                            seq![label_line("Variables"@)] + variable_lines(old(self).vars_shown())))
                    + seq![Seq::<SpanView>::empty()],
            ),
            final(self).spec_variables() == old(self).spec_variables(),
            final(self).spec_task_args_table() == old(self).spec_task_args_table(),
            final(self).spec_masks() == old(self).spec_masks(),
            final(self).spec_all_facts() == old(self).spec_all_facts(),
            final(self).spec_task_args() == old(self).spec_task_args(),
            final(self).spec_timestamps() == old(self).spec_timestamps(),
            final(self).spec_started() == old(self).spec_started(),
    {
        let shown = self.shown_variables();
        self.play_start_with(name, hosts, &shown)
    }

    /// A task starts on a host: at verbosity 1 and above its heading, from
    /// verbosity 2 the host, and from verbosity 3 (when configured) its
    /// arguments, when there are any, as one object masked as configured and
    /// pretty-printed.
    pub fn on_task_start(&self, name: &str, host: &str) -> (out: Vec<Vec<Span>>)
        requires
            self.wf(),
        ensures
            lines_view(out@) == when(
                self.spec_verbosity() >= 1,
                seq![separator_line('-'), heading_line("TASK"@, name@), separator_line('-')],
            ) + when(
                self.spec_verbosity() >= 2,
                seq![kv_line("Host"@, host@, 2)] + when(
                    self.spec_verbosity() >= 3 && self.spec_task_args() && self.args_shown() is Some,
                    seq![seq![("  "@, plain_style()), ("Arguments"@, color_style(Color::Cyan)), (":"@, plain_style())]]
                        + indented_lines(match self.args_shown() { Some(a) => a, None => Seq::empty() }, 4),
                ) + seq![Seq::<SpanView>::empty()],
            ),
    {
        let shown = if self.task_args.len() > 0 {
            Some(pretty_json(&self.displayed_value(&table_object(&self.task_args))))
        } else {
            None
        };
        let a: Option<&str> = match &shown {
            Some(t) => Some(t.as_str()),
            None => None,
        };
        self.task_start_with(name, host, a)
    }

    /// Facts were gathered on `host`: from verbosity 3 a heading and how
    /// many there are; at verbosity 5, when all facts are shown, all of them
    /// as one object (masked as configured, pretty-printed), otherwise from
    /// verbosity 4 the key facts that are present, each printed compactly.
    pub fn on_facts_gathered(&self, host: &str, facts: &HostTable<JsonValue>) -> (out: Vec<Vec<Span>>)
        requires
            facts.wf(),
        ensures
            lines_view(out@) == when(
                self.spec_verbosity() >= 3,
                seq![
                    separator_line('-'),
                    facts_heading(host@),
                    separator_line('-'),
                    kv_line("Facts gathered"@, dec(facts@.dom().len()) + " items"@, 2),
                ] + (if self.spec_verbosity() >= 5 && self.spec_all_facts() {
                    seq![label_line("All Facts"@)] + indented_lines(pretty_text(self.mask_of(JsonView::Object(table_entries(*facts)))), 4)
                } else if self.spec_verbosity() >= 4 {
                    seq![label_line("Key Facts"@)] + key_fact_lines(key_fact_names(), compact_map(facts@))
                } else {
                    Seq::<Seq<SpanView>>::empty()
                }) + seq![Seq::<SpanView>::empty()],
            ),
    {
        let compact = compact_table(facts);
        let all = pretty_json(&self.displayed_value(&table_object(facts)));
        self.facts_gathered_with(host, &compact, all.as_str())
    }

    /// A task finished: it is counted (with its duration) for its host; a
    /// failure sets the failure flag. From verbosity 1 its status line is
    /// shown with `measured` (the time since the task started on the host,
    /// when that is known, else the result's own duration); failures,
    /// changes and skips show their message. From verbosity 3 the result
    /// data (masked as configured, then pretty-printed), warnings and
    /// notified handlers follow.
    pub fn on_task_complete(
        &mut self,
        result: &ExecutionResult,
        measured: Option<&Elapsed>,
    ) -> (out: Vec<Vec<Span>>)
        requires
            old(self).wf(),
            result.duration.wf(),
            measured matches Some(m) ==> m.wf(),
            stats_of(old(self).stats(), result.host@).total_nanos + result.duration.nanos
                <= crate::types::max_elapsed_nanos(),
        ensures
            final(self).wf(),
            final(self).stats() == old(self).stats().insert(
                result.host@,
                count_task(stats_of(old(self).stats(), result.host@), outcome_of(result.result), result.duration.nanos),
            ),
            final(self).spec_has_failures() == (old(self).spec_has_failures() || outcome_of(result.result)
                == TaskOutcome::Failed),
            final(self).spec_verbosity() == old(self).spec_verbosity(),
            lines_view(out@) == when(
                old(self).spec_verbosity() >= 1,
                status_lines(
                    outcome_of(result.result),
                    result.host@,
                    match measured {
                        Some(m) => duration_text(m.secs_of(), m.subsec_millis_of()),
                        None => duration_text(result.duration.secs_of(), result.duration.subsec_millis_of()),
                    },
                    if outcome_of(result.result) != TaskOutcome::Unchanged {
                        Some(result.result.message@)
                    } else {
                        None
                    },
                ) + when(old(self).spec_verbosity() >= 3, detail_lines(result, old(self).shown_data(*result)))
                    + seq![Seq::<SpanView>::empty()],
            ),
    {
        let host = result.host.as_str();
        let mut s = match self.host_stats.get(host) {
            Some(s) => s,
            None => HostStats { ok: 0, changed: 0, failed: 0, skipped: 0, total_nanos: 0 },
        };
        s.total_nanos = s.total_nanos + result.duration.nanos;
        let o = classify(&result.result);
        match o {
            TaskOutcome::Skipped => s.skipped = inc(s.skipped),
            TaskOutcome::Failed => {
                s.failed = inc(s.failed);
                self.has_failures = true;
            },
            TaskOutcome::Changed => s.changed = inc(s.changed),
            TaskOutcome::Unchanged => s.ok = inc(s.ok),
        }
        self.host_stats.set(host, s);
        let mut out = Vec::new();
        if self.config.verbosity >= 1 {
            let d = match measured {
                Some(m) => format_duration(m),
                None => format_duration(&result.duration),
            };
            let msg = match o {
                TaskOutcome::Unchanged => None,
                _ => Some(result.result.message.as_str()),
            };
            let st = status_spans(o, host, d.as_str(), msg);
            append_lines(&mut out, st);
            if self.config.verbosity >= 3 {
                let shown = match &result.result.data {
                    Some(d) => Some(pretty_json(&self.displayed_value(d))),
                    None => None,
                };
                let data_pretty: Option<&str> = match &shown {
                    Some(p) => Some(p.as_str()),
                    None => None,
                };
                let more = detail_spans(result, data_pretty);
                append_lines(&mut out, more);
            }
            push_line(&mut out, blank());
        }
        out
    }

    /// A handler was notified: shown from verbosity 2.
    pub fn on_handler_triggered(&self, name: &str) -> (out: Vec<Vec<Span>>)
        ensures
            lines_view(out@) == when(
                self.spec_verbosity() >= 2,
                seq![seq![("  "@, plain_style()), ("HANDLER NOTIFIED:"@, color_style(Color::BrightBlack)), (" "@, plain_style()), (name@, color_style(Color::Yellow))]],
            ),
    {
        let mut out = Vec::new();
        if self.config.verbosity >= 2 {
            let mut l = Vec::new();
            push_span(&mut l, "  ", Style::plain());
            push_span(&mut l, "HANDLER NOTIFIED:", Style::fg(Color::BrightBlack));
            push_span(&mut l, " ", Style::plain());
            push_span(&mut l, name, Style::fg(Color::Yellow));
            push_line(&mut out, l);
        }
        proof {
            assert(lines_view(out@) =~~= when(
                self.config.verbosity >= 2,
                seq![seq![("  "@, plain_style()), ("HANDLER NOTIFIED:"@, color_style(Color::BrightBlack)), (" "@, plain_style()), (name@, color_style(Color::Yellow))]],
            ));
        }
        out
    }

    /// Facts were gathered on `host` (each fact by its compact JSON text):
    /// from verbosity 3 a heading and how many there are; at verbosity 5,
    /// when all facts are shown, `all_facts_pretty` (the facts as one
    /// pretty-printed object, already masked when masking is on), otherwise
    /// from verbosity 4 the key facts that are present.
    fn facts_gathered_with(&self, host: &str, facts: &HostTable<String>, all_facts_pretty: &str) -> (out: Vec<
        Vec<Span>,
    >)
        requires
            facts.wf(),
        ensures
            lines_view(out@) == when(
                self.spec_verbosity() >= 3,
                seq![
                    separator_line('-'),
                    facts_heading(host@),
                    separator_line('-'),
                    kv_line("Facts gathered"@, dec(facts@.dom().len()) + " items"@, 2),
                ] + (if self.spec_verbosity() >= 5 && self.spec_all_facts() {
                    seq![label_line("All Facts"@)] + indented_lines(all_facts_pretty@, 4)
                } else if self.spec_verbosity() >= 4 {
                    seq![label_line("Key Facts"@)] + key_fact_lines(key_fact_names(), text_map(facts@))
                } else {
                    Seq::<Seq<SpanView>>::empty()
                }) + seq![Seq::<SpanView>::empty()],
            ),
    {
        let v = self.config.verbosity;
        let mut out: Vec<Vec<Span>> = Vec::new();
        if v >= 3 {
            push_line(&mut out, separator('-'));
            let mut l = Vec::new();
            push_span(&mut l, "GATHERING FACTS", Style::bold(Color::BrightWhite));
            push_span(&mut l, " [", Style::plain());
            push_span(&mut l, host, Style::bold(Color::Yellow));
            push_span(&mut l, "] ", Style::plain());
            push_owned(&mut l, repeat_string('*', 55), Style::fg(Color::BrightBlack));
            proof {
                assert(line_view(l@) =~= facts_heading(host@));
            }
            push_line(&mut out, l);
            push_line(&mut out, separator('-'));
            let n = facts.len();
            let mut count = String::new();
            push_dec(&mut count, n as u64);
            push_str(&mut count, " items");
            push_line(&mut out, kv("Facts gathered", count.as_str(), 2));
            let ghost head = lines_view(out@);
            if v >= 5 && self.config.show_all_facts {
                push_line(&mut out, label("All Facts"));
                push_indented(&mut out, all_facts_pretty, 4);
            } else if v >= 4 {
                push_line(&mut out, label("Key Facts"));
                let ghost start = lines_view(out@);
                let names: Vec<&str> = vec!["os_family", "os_arch", "hostname", "user"];
                proof {
                    reveal_strlit("os_family");
                    reveal_strlit("os_arch");
                    reveal_strlit("hostname");
                    reveal_strlit("user");
                    assert(str_views(names@) =~= key_fact_names());
                }
                let mut i: usize = 0;
                while i < names.len()
                    invariant
                        i <= names.len(),
                        facts.wf(),
                        str_views(names@) == key_fact_names(),
                        lines_view(out@) == start + key_fact_lines(str_views(names@).subrange(0, i as int), text_map(facts@)),
                    decreases names.len() - i,
                {
                    let name = names[i];
                    let ghost before = lines_view(out@);
                    proof {
                        let sub = str_views(names@).subrange(0, i + 1);
                        assert(sub.drop_last() =~= str_views(names@).subrange(0, i as int));
                        assert(sub.last() == name@);
                    }
                    match facts.get_ref(name) {
                        Some(t) => {
                            push_line(&mut out, named(name, t.as_str()));
                        },
                        None => {},
                    }
                    proof {
                        assert(lines_view(out@) =~= start + key_fact_lines(str_views(names@).subrange(0, i + 1), text_map(facts@)));
                    }
                    i = i + 1;
                }
                proof {
                    assert(str_views(names@).subrange(0, i as int) =~= str_views(names@));
                }
            }
            push_line(&mut out, blank());
        }
        proof {
            assert(lines_view(out@) =~~= when(
                self.spec_verbosity() >= 3,
                seq![
                    separator_line('-'),
                    facts_heading(host@),
                    separator_line('-'),
                    kv_line("Facts gathered"@, dec(facts@.dom().len()) + " items"@, 2),
                ] + (if self.spec_verbosity() >= 5 && self.spec_all_facts() {
                    seq![label_line("All Facts"@)] + indented_lines(all_facts_pretty@, 4)
                } else if self.spec_verbosity() >= 4 {
                    seq![label_line("Key Facts"@)] + key_fact_lines(key_fact_names(), text_map(facts@))
                } else {
                    Seq::<Seq<SpanView>>::empty()
                }) + seq![Seq::<SpanView>::empty()],
            ));
        }
        out
    }

    /// The playbook ended: from verbosity 1 the recap (hosts in name order;
    /// from verbosity 3 with each host's total task time), then, when the
    /// playbook started, how it ended and how long it took, with the finish
    /// time (`timestamp`) from verbosity 2 when timestamps are on.
    pub fn on_playbook_end(&self, success: bool, elapsed: &Elapsed, timestamp: &str) -> (out: Vec<Vec<Span>>)
        requires
            self.wf(),
            elapsed.wf(),
        ensures
            lines_view(out@) == when(
                self.spec_verbosity() >= 1,
                seq![
                    Seq::<SpanView>::empty(),
                    separator_line('='),
                    seq![("PLAY RECAP"@, bold_style(Color::BrightWhite)), (" "@, plain_style()), (repeat_char('*', 69), color_style(Color::BrightBlack))],
                    separator_line('='),
                ] + recap_lines(self.spec_verbosity(), sorted_keys(self.stats()), self.stats()) + when(
                    self.spec_started(),
                    seq![Seq::<SpanView>::empty(), separator_line('='), finish_line(success, duration_text(elapsed.secs_of(), elapsed.subsec_millis_of()))]
                        + when(self.spec_verbosity() >= 2 && self.spec_timestamps(), seq![kv_line("Finished"@, timestamp@, 2)])
                        + seq![separator_line('=')],
                ) + seq![Seq::<SpanView>::empty()],
            ),
    {
        let v = self.config.verbosity;
        let mut out: Vec<Vec<Span>> = Vec::new();
        if v >= 1 {
            push_line(&mut out, blank());
            push_line(&mut out, separator('='));
            let mut l = Vec::new();
            push_span(&mut l, "PLAY RECAP", Style::bold(Color::BrightWhite));
            push_span(&mut l, " ", Style::plain());
            push_owned(&mut l, repeat_string('*', 69), Style::fg(Color::BrightBlack));
            push_line(&mut out, l);
            push_line(&mut out, separator('='));
            let ghost head = lines_view(out@);
            let ghost m = self.stats();
            let hosts = self.host_stats.sorted_names();
            proof {
                lemma_sorted_keys(views(hosts@), m);
            }
            let mut i: usize = 0;
            while i < hosts.len()
                invariant
                    self.wf(),
                    m == self.stats(),
                    v == self.config.verbosity,
                    i <= hosts.len(),
                    forall|k: Seq<char>| m.contains_key(k) <==> views(hosts@).contains(k),
                    lines_view(out@) == head + recap_lines(v, views(hosts@).subrange(0, i as int), m),
                decreases hosts.len() - i,
            {
                let h = hosts[i].as_str();
                proof {
                    assert(views(hosts@)[i as int] == h@);
                    assert(views(hosts@).contains(h@));
                }
                let s = match self.host_stats.get(h) {
                    Some(s) => s,
                    None => HostStats { ok: 0, changed: 0, failed: 0, skipped: 0, total_nanos: 0 },
                };
                let more = host_recap(v, h, &s);
                append_lines(&mut out, more);
                proof {
                    let sub = views(hosts@).subrange(0, i + 1);
                    assert(sub.drop_last() =~= views(hosts@).subrange(0, i as int));
                    assert(sub.last() == h@);
                }
                i = i + 1;
            }
            proof {
                assert(views(hosts@).subrange(0, i as int) =~= views(hosts@));
            }
            let ghost after_recap = lines_view(out@);
            if self.started {
                push_line(&mut out, blank());
                push_line(&mut out, separator('='));
                let d = format_duration(elapsed);
                push_line(&mut out, finish_spans(success, d.as_str()));
                if v >= 2 && self.config.show_timestamps {
                    push_line(&mut out, kv("Finished", timestamp, 2));
                }
                push_line(&mut out, separator('='));
                proof {
                    assert(lines_view(out@) =~~= after_recap + seq![Seq::<SpanView>::empty(), separator_line('='), finish_line(success, duration_text(elapsed.secs_of(), elapsed.subsec_millis_of()))]
                        + when(v >= 2 && self.config.show_timestamps, seq![kv_line("Finished"@, timestamp@, 2)])
                        + seq![separator_line('=')]);
                }
            }
            let ghost after_fin = lines_view(out@);
            push_line(&mut out, blank());
        }
        proof {
            assert(lines_view(out@) =~~= when(
                v >= 1,
                seq![
                    Seq::<SpanView>::empty(),
                    separator_line('='),
                    seq![("PLAY RECAP"@, bold_style(Color::BrightWhite)), (" "@, plain_style()), (repeat_char('*', 69), color_style(Color::BrightBlack))],
                    separator_line('='),
                ] + recap_lines(v, sorted_keys(self.stats()), self.stats()) + when(
                    self.started,
                    seq![Seq::<SpanView>::empty(), separator_line('='), finish_line(success, duration_text(elapsed.secs_of(), elapsed.subsec_millis_of()))]
                        + when(v >= 2 && self.config.show_timestamps, seq![kv_line("Finished"@, timestamp@, 2)])
                        + seq![separator_line('=')],
                ) + seq![Seq::<SpanView>::empty()],
            ));
        }
        out
    }
}

/// The closing line: how the playbook ended and how long it took.
pub open spec fn finish_line(success: bool, duration: Seq<char>) -> Seq<SpanView> {
    seq![
        ("Playbook"@, color_style(Color::BrightWhite)),
        (" "@, plain_style()),
        if success { ("completed successfully"@, bold_style(Color::Green)) } else { ("failed"@, bold_style(Color::Red)) },
        (" in "@, plain_style()),
        (duration, color_style(Color::Yellow)),
    ]
}

fn finish_spans(success: bool, duration: &str) -> (l: Vec<Span>)
    ensures
        line_view(l@) == finish_line(success, duration@),
{
    let mut l = Vec::new();
    push_span(&mut l, "Playbook", Style::fg(Color::BrightWhite));
    push_span(&mut l, " ", Style::plain());
    if success {
        push_span(&mut l, "completed successfully", Style::bold(Color::Green));
    } else {
        push_span(&mut l, "failed", Style::bold(Color::Red));
    }
    push_span(&mut l, " in ", Style::plain());
    push_span(&mut l, duration, Style::fg(Color::Yellow));
    proof {
        assert(line_view(l@) =~= finish_line(success, duration@));
    }
    l
}

/// A count padded to four characters, as `{:<4}` prints it.
pub open spec fn count4(n: u32) -> Seq<char> {
    pad_right(dec(n as nat), 4)
}

/// The recap lines of one host: its counts, and from verbosity 3 its total
/// task time.
pub open spec fn host_recap_lines(v: u8, host: Seq<char>, s: HostStats) -> Seq<Seq<SpanView>> {
    let host_style = if s.failed > 0 {
        bold_style(Color::Red)
    } else if s.changed > 0 {
        color_style(Color::Yellow)
    } else {
        color_style(Color::Green)
    };
    let first = seq![
        (pad_right(host, 30), host_style),
        (" : "@, plain_style()),
        ("ok"@, color_style(Color::Green)),
        ("="@ + count4(s.ok) + " "@, plain_style()),
        ("changed"@, color_style(Color::Yellow)),
        ("="@ + count4(s.changed) + " "@, plain_style()),
        ("failed"@, color_style(Color::Red)),
        ("="@ + count4(s.failed) + " "@, plain_style()),
        ("skipped"@, color_style(Color::Cyan)),
        ("="@ + count4(s.skipped), plain_style()),
    ];
    let secs = (s.total_nanos / 1_000_000_000) as nat;
    let millis = ((s.total_nanos % 1_000_000_000) / 1_000_000) as nat;
    seq![first] + when(
        v >= 3,
        seq![
            seq![
                (repeat_char(' ', 32) + "  "@, plain_style()),
                ("total time"@, color_style(Color::BrightBlack)),
                (": "@, plain_style()),
                (duration_text(secs, millis), color_style(Color::BrightBlack)),
            ],
        ],
    )
}

/// The recap lines of hosts `hs` in order.
pub open spec fn recap_lines(v: u8, hs: Seq<Seq<char>>, m: Map<Seq<char>, HostStats>) -> Seq<Seq<SpanView>>
    decreases hs.len(),
{
    if hs.len() == 0 {
        Seq::empty()
    } else {
        recap_lines(v, hs.drop_last(), m) + host_recap_lines(v, hs.last(), m[hs.last()])
    }
}

fn push_count4(t: &mut String, n: u32)
    ensures
        final(t)@ == old(t)@ + count4(n),
{
    let d = crate::text::dec_string(n as u64);
    push_padded(t, d.as_str(), 4);
}

fn host_recap(v: u8, host: &str, s: &HostStats) -> (out: Vec<Vec<Span>>)
    requires
        s.total_nanos <= crate::types::max_elapsed_nanos(),
    ensures
        lines_view(out@) == host_recap_lines(v, host@, *s),
{
    let host_style = if s.failed > 0 {
        Style::bold(Color::Red)
    } else if s.changed > 0 {
        Style::fg(Color::Yellow)
    } else {
        Style::fg(Color::Green)
    };
    let mut padded = String::new();
    push_padded(&mut padded, host, 30);
    let mut l = Vec::new();
    push_owned(&mut l, padded, host_style);
    push_span(&mut l, " : ", Style::plain());
    push_span(&mut l, "ok", Style::fg(Color::Green));
    let mut t = String::new();
    push_str(&mut t, "=");
    push_count4(&mut t, s.ok);
    push_str(&mut t, " ");
    push_owned(&mut l, t, Style::plain());
    push_span(&mut l, "changed", Style::fg(Color::Yellow));
    let mut t = String::new();
    push_str(&mut t, "=");
    push_count4(&mut t, s.changed);
    push_str(&mut t, " ");
    push_owned(&mut l, t, Style::plain());
    push_span(&mut l, "failed", Style::fg(Color::Red));
    let mut t = String::new();
    push_str(&mut t, "=");
    push_count4(&mut t, s.failed);
    push_str(&mut t, " ");
    push_owned(&mut l, t, Style::plain());
    push_span(&mut l, "skipped", Style::fg(Color::Cyan));
    let mut t = String::new();
    push_str(&mut t, "=");
    push_count4(&mut t, s.skipped);
    push_owned(&mut l, t, Style::plain());
    let mut out = Vec::new();
    push_line(&mut out, l);
    if v >= 3 {
        let e = Elapsed { nanos: s.total_nanos };
        let secs: u64 = (s.total_nanos / 1_000_000_000) as u64;
        proof {
            assert(s.total_nanos / 1_000_000_000 <= u64::MAX);
        }
        let millis: u64 = ((s.total_nanos % 1_000_000_000) / 1_000_000) as u64;
        let mut dl = Vec::new();
        let mut pad = repeat_string(' ', 32);
        push_str(&mut pad, "  ");
        push_owned(&mut dl, pad, Style::plain());
        push_span(&mut dl, "total time", Style::fg(Color::BrightBlack));
        push_span(&mut dl, ": ", Style::plain());
        push_owned(&mut dl, duration_of(secs, millis), Style::fg(Color::BrightBlack));
        push_line(&mut out, dl);
    }
    proof {
        assert(lines_view(out@) =~~= host_recap_lines(v, host@, *s));
    }
    out
}

/// `duration_text` for whole seconds and milliseconds.
fn duration_of(secs: u64, millis: u64) -> (s: String)
    requires
        millis < 1000,
    ensures
        s@ == duration_text(secs as nat, millis as nat),
{
    let mut s = String::new();
    if secs >= 3600 {
        push_dec(&mut s, secs / 3600);
        push_str(&mut s, "h ");
        push_dec_zero_padded(&mut s, (secs % 3600) / 60, 2);
        push_str(&mut s, "m ");
        push_dec_zero_padded(&mut s, secs % 60, 2);
        push_str(&mut s, "s");
    } else if secs >= 60 {
        push_dec(&mut s, secs / 60);
        push_str(&mut s, "m ");
        push_dec_zero_padded(&mut s, secs % 60, 2);
        push_str(&mut s, "s");
    } else if secs > 0 {
        push_dec(&mut s, secs);
        push_str(&mut s, ".");
        push_dec_zero_padded(&mut s, millis, 3);
        push_str(&mut s, "s");
    } else {
        push_dec(&mut s, millis);
        push_str(&mut s, "ms");
    }
    proof {
        assert(s@ =~= duration_text(secs as nat, millis as nat));
    }
    s
}

/// The details shown from verbosity 3: the result data, warnings and
/// notified handlers.
pub open spec fn detail_lines(result: &ExecutionResult, data_pretty: Option<Seq<char>>) -> Seq<Seq<SpanView>> {
    let r = result.result;
    let data = match (r.data, data_pretty) {
        (Some(_), Some(d)) => seq![seq![("  "@, plain_style()), ("Result"@, color_style(Color::Cyan)), (":"@, plain_style())]]
            + indented_lines(d, 4),
        _ => Seq::empty(),
    };
    let ws = views(r.warnings@);
    let warnings = Seq::new(ws.len(), |i: int| seq![("  "@, plain_style()), ("WARNING"@, bold_style(Color::Yellow)), (": "@ + ws[i], plain_style())]);
    let notified = if result.notify@.len() > 0 {
        seq![
            seq![
                ("  "@, plain_style()),
                ("Notified"@, color_style(Color::Cyan)),
                (": "@, plain_style()),
                (join_seq(views(result.notify@), ", "@), color_style(Color::BrightWhite)),
            ],
        ]
    } else {
        Seq::empty()
    };
    data + warnings + notified
}

/// The characters of an optional string slice.
pub open spec fn opt_str(o: Option<&str>) -> Option<Seq<char>> {
    match o {
        Some(s) => Some(s@),
        None => None,
    }
}

fn detail_spans(result: &ExecutionResult, data_pretty: Option<&str>) -> (out: Vec<Vec<Span>>)
    ensures
        lines_view(out@) == detail_lines(result, opt_str(data_pretty)),
{
    let r = &result.result;
    let mut out: Vec<Vec<Span>> = Vec::new();
    match (&r.data, data_pretty) {
        (Some(_), Some(d)) => {
            let mut l = Vec::new();
            push_span(&mut l, "  ", Style::plain());
            push_span(&mut l, "Result", Style::fg(Color::Cyan));
            push_span(&mut l, ":", Style::plain());
            push_line(&mut out, l);
            push_indented(&mut out, d, 4);
        },
        _ => {},
    }
    let ghost after_data = lines_view(out@);
    let ghost ws = views(r.warnings@);
    let mut i: usize = 0;
    while i < r.warnings.len()
        invariant
            i <= r.warnings.len(),
            ws == views(r.warnings@),
            lines_view(out@) == after_data + Seq::new(i as nat, |j: int| seq![("  "@, plain_style()), ("WARNING"@, bold_style(Color::Yellow)), (": "@ + ws[j], plain_style())]),
        decreases r.warnings.len() - i,
    {
        let mut l = Vec::new();
        push_span(&mut l, "  ", Style::plain());
        push_span(&mut l, "WARNING", Style::bold(Color::Yellow));
        let mut t = String::new();
        push_str(&mut t, ": ");
        push_str(&mut t, r.warnings[i].as_str());
        push_owned(&mut l, t, Style::plain());
        push_line(&mut out, l);
        proof {
            assert(ws[i as int] == r.warnings@[i as int]@);
            assert(lines_view(out@) =~~= after_data + Seq::new((i + 1) as nat, |j: int| seq![("  "@, plain_style()), ("WARNING"@, bold_style(Color::Yellow)), (": "@ + ws[j], plain_style())]));
        }
        i = i + 1;
    }
    let ghost after_warn = lines_view(out@);
    if result.notify.len() > 0 {
        let mut names: Vec<&str> = Vec::new();
        let mut j: usize = 0;
        while j < result.notify.len()
            invariant
                j <= result.notify.len(),
                str_views(names@) == views(result.notify@).subrange(0, j as int),
            decreases result.notify.len() - j,
        {
            let ghost before = str_views(names@);
            let h = result.notify[j].as_str();
            names.push(h);
            proof {
                assert(h@ == result.notify@[j as int]@);
                assert(str_views(names@) =~= before.push(h@));
                assert(views(result.notify@).subrange(0, j + 1) =~= views(result.notify@).subrange(0, j as int).push(result.notify@[j as int]@));
            }
            j = j + 1;
        }
        proof {
            assert(views(result.notify@).subrange(0, j as int) =~= views(result.notify@));
        }
        let joined = join_strs(&names, ", ");
        let mut l = Vec::new();
        push_span(&mut l, "  ", Style::plain());
        push_span(&mut l, "Notified", Style::fg(Color::Cyan));
        push_span(&mut l, ": ", Style::plain());
        push_owned(&mut l, joined, Style::fg(Color::BrightWhite));
        push_line(&mut out, l);
    }
    proof {
        assert(lines_view(out@) =~~= detail_lines(result, opt_str(data_pretty)));
    }
    out
}

/// The host summary of a play.
fn host_summary_text(hosts: &Vec<String>) -> (s: String)
    ensures
        s@ == host_summary(views(hosts@)),
{
    let n = hosts.len();
    let k: usize = if n <= 5 { n } else { 5 };
    let mut names: Vec<&str> = Vec::new();
    let mut j: usize = 0;
    while j < k
        invariant
            j <= k <= n,
            n == hosts@.len(),
            str_views(names@) == views(hosts@).subrange(0, j as int),
        decreases k - j,
    {
        let ghost before = str_views(names@);
        let h = hosts[j].as_str();
        names.push(h);
        proof {
            assert(h@ == hosts@[j as int]@);
            assert(str_views(names@) =~= before.push(h@));
            assert(views(hosts@).subrange(0, j + 1) =~= views(hosts@).subrange(0, j as int).push(hosts@[j as int]@));
        }
        j = j + 1;
    }
    let joined = join_strs(&names, ", ");
    let mut s = String::new();
    push_dec(&mut s, n as u64);
    push_str(&mut s, " (");
    push_str(&mut s, joined.as_str());
    if n > 5 {
        push_str(&mut s, ", ... and ");
        push_dec(&mut s, (n - 5) as u64);
        push_str(&mut s, " more");
    } else {
        proof {
            assert(views(hosts@).subrange(0, n as int) =~= views(hosts@));
        }
    }
    push_str(&mut s, ")");
    proof {
        assert(s@ =~= host_summary(views(hosts@)));
    }
    s
}

} // verus!
