//! The minimal plugin: silent on success, a line per failure, and a one-line
//! recap per host.
use vstd::prelude::*;
use crate::plugins::actionable::{lemma_sorted_keys, sorted_keys};
use crate::style::{
    blank, bold_style, color_style, line_view, lines_view, plain_style, push_line, push_owned, push_span, text_of, Color, Span,
    SpanView, Style,
};
use crate::table::{views, HostTable};
use crate::text::{dec, dec_string, push_str};
use crate::types::{inc, wrap_inc, ExecutionResult};

verus! {

/// Task counts for one host.
#[derive(Clone, Copy, Debug, PartialEq, Eq, Structural)]
pub struct HostStats {
    pub ok: u32,
    pub changed: u32,
    pub failed: u32,
    pub skipped: u32,
    pub unreachable: u32,
}

/// A host with nothing counted.
pub open spec fn zero_stats() -> HostStats {
    HostStats { ok: 0, changed: 0, failed: 0, skipped: 0, unreachable: 0 }
}

/// The counts of `host`, zero if it has none.
pub open spec fn stats_of(m: Map<Seq<char>, HostStats>, host: Seq<char>) -> HostStats {
    if m.contains_key(host) {
        m[host]
    } else {
        zero_stats()
    }
}

/// The counts after a finished task: skip first, then failure, then change.
pub open spec fn counted(s: HostStats, skipped: bool, success: bool, changed: bool) -> HostStats {
    if skipped {
        HostStats { skipped: wrap_inc(s.skipped), ..s }
    } else if !success {
        HostStats { failed: wrap_inc(s.failed), ..s }
    } else if changed {
        HostStats { changed: wrap_inc(s.changed), ..s }
    } else {
        HostStats { ok: wrap_inc(s.ok), ..s }
    }
}

/// A finished task counts once, under its own kind: a skipped task as
/// skipped, else a task that did not succeed as failed, else a changed one
/// as changed, else as ok; the other counts stay as they were.
pub proof fn lemma_count_result(s: HostStats, skipped: bool, success: bool, changed: bool)
    requires
        s.ok < u32::MAX,
        s.changed < u32::MAX,
        s.failed < u32::MAX,
        s.skipped < u32::MAX,
    ensures
        counted(s, skipped, success, changed).skipped == s.skipped + if skipped { 1int } else { 0int },
        counted(s, skipped, success, changed).failed == s.failed + if !skipped && !success { 1int } else { 0int },
        counted(s, skipped, success, changed).changed == s.changed + if !skipped && success && changed { 1int } else { 0int },
        counted(s, skipped, success, changed).ok == s.ok + if !skipped && success && !changed { 1int } else { 0int },
        counted(s, skipped, success, changed).unreachable == s.unreachable,
{
}

/// A failure or unreachable line: `LABEL: host | task | message`.
pub open spec fn problem_line(label: Seq<char>, c: Color, host: Seq<char>, task: Seq<char>, message: Seq<char>) -> Seq<SpanView> {
    seq![
        (label, bold_style(c)),
        (": "@, plain_style()),
        (host, bold_style(Color::BrightWhite)),
        (" | "@, plain_style()),
        (task, color_style(Color::Yellow)),
        (" | "@ + message, plain_style()),
    ]
}

/// A host's recap line.
pub open spec fn recap_line(host: Seq<char>, s: HostStats) -> Seq<SpanView> {
    seq![
        ("RECAP"@, color_style(Color::BrightBlack)),
        (": "@, plain_style()),
        (host, if s.failed > 0 || s.unreachable > 0 {
            bold_style(Color::Red)
        } else if s.changed > 0 {
            color_style(Color::Yellow)
        } else {
            color_style(Color::Green)
        }),
        (" ok="@, plain_style()),
        (dec(s.ok as nat), color_style(Color::Green)),
        (" changed="@, plain_style()),
        (dec(s.changed as nat), color_style(Color::Yellow)),
        (" failed="@, plain_style()),
        (dec(s.failed as nat), color_style(Color::Red)),
        (" skipped="@, plain_style()),
        (dec(s.skipped as nat), color_style(Color::Cyan)),
        (" unreachable="@, plain_style()),
        (dec(s.unreachable as nat), color_style(Color::Magenta)),
    ]
}

/// A host's recap line reads `RECAP: host ok=N changed=N failed=N
/// skipped=N unreachable=N`, each label followed by the host's own count of
/// that kind.
pub proof fn lemma_recap_line_text(host: Seq<char>, s: HostStats)
    ensures
        text_of(recap_line(host, s)) == "RECAP"@ + ": "@ + host + " ok="@ + dec(s.ok as nat) + " changed="@ + dec(
            s.changed as nat,
        ) + " failed="@ + dec(s.failed as nat) + " skipped="@ + dec(s.skipped as nat) + " unreachable="@ + dec(
            s.unreachable as nat,
        ),
{
    reveal_with_fuel(text_of, 14);
    assert(text_of(recap_line(host, s)) =~= "RECAP"@ + ": "@ + host + " ok="@ + dec(s.ok as nat) + " changed="@ + dec(
        s.changed as nat,
    ) + " failed="@ + dec(s.failed as nat) + " skipped="@ + dec(s.skipped as nat) + " unreachable="@ + dec(
        s.unreachable as nat,
    ));
}

/// The recap lines of the hosts `hs`.
pub open spec fn recap_lines(hs: Seq<Seq<char>>, m: Map<Seq<char>, HostStats>) -> Seq<Seq<SpanView>> {
    Seq::new(hs.len(), |i: int| recap_line(hs[i], m[hs[i]]))
}

fn problem(label: &str, c: Color, host: &str, task_name: &str, message: &str) -> (l: Vec<Span>)
    ensures
        line_view(l@) == problem_line(label@, c, host@, task_name@, message@),
{
    let mut l = Vec::new();
    push_span(&mut l, label, Style::bold(c));
    push_span(&mut l, ": ", Style::plain());
    push_span(&mut l, host, Style::bold(Color::BrightWhite));
    push_span(&mut l, " | ", Style::plain());
    push_span(&mut l, task_name, Style::fg(Color::Yellow));
    let mut t = String::new();
    push_str(&mut t, " | ");
    push_str(&mut t, message);
    push_owned(&mut l, t, Style::plain());
    proof {
        assert(line_view(l@) =~= problem_line(label@, c, host@, task_name@, message@));
    }
    l
}

/// Callback that shows only failures and a recap.
#[derive(Debug)]
pub struct MinimalCallback {
    host_stats: HostTable<HostStats>,
    started: bool,
    playbook_name: Option<String>,
    failures: bool,
}

impl MinimalCallback {
    /// The table of counts is well formed.
    pub closed spec fn wf(&self) -> bool {
        self.host_stats.wf()
    }

    /// The counts per host.
    pub closed spec fn stats(&self) -> Map<Seq<char>, HostStats> {
        self.host_stats@
    }

    /// Whether something failed.
    pub closed spec fn spec_failures(&self) -> bool {
        self.failures
    }

    /// Whether a playbook started.
    pub closed spec fn spec_started(&self) -> bool {
        self.started
    }

    /// A minimal callback.
    pub fn new() -> (c: Self)
        ensures
            c.wf(),
            c.stats() == Map::<Seq<char>, HostStats>::empty(),
            !c.spec_failures(),
            !c.spec_started(),
    {
        MinimalCallback { host_stats: HostTable::new(), started: false, playbook_name: None, failures: false }
    }

    /// Whether something failed.
    pub fn has_failures(&self) -> (b: bool)
        ensures
            b == self.spec_failures(),
    {
        self.failures
    }

    /// The counts of `host`, if it has any.
    pub fn host_stats(&self, host: &str) -> (r: Option<HostStats>)
        requires
            self.wf(),
        ensures
            r == if self.stats().contains_key(host@) {
                Some(self.stats()[host@])
            } else {
                None::<HostStats>
            },
    {
        self.host_stats.get(host)
    }

    /// A failure line.
    pub fn format_failure(host: &str, task_name: &str, message: &str) -> (l: Vec<Span>)
        ensures
            line_view(l@) == problem_line("FAILED"@, Color::Red, host@, task_name@, message@),
    {
        problem("FAILED", Color::Red, host, task_name, message)
    }

    /// An unreachable line.
    pub fn format_unreachable(host: &str, task_name: &str, message: &str) -> (l: Vec<Span>)
        ensures
            line_view(l@) == problem_line("UNREACHABLE"@, Color::Magenta, host@, task_name@, message@),
    {
        problem("UNREACHABLE", Color::Magenta, host, task_name, message)
    }

    /// A host's recap line.
    pub fn format_recap_line(host: &str, stats: &HostStats) -> (l: Vec<Span>)
        ensures
            line_view(l@) == recap_line(host@, *stats),
    {
        let hs = if stats.failed > 0 || stats.unreachable > 0 {
            Style::bold(Color::Red)
        } else if stats.changed > 0 {
            Style::fg(Color::Yellow)
        } else {
            Style::fg(Color::Green)
        };
        let mut l = Vec::new();
        push_span(&mut l, "RECAP", Style::fg(Color::BrightBlack));
        push_span(&mut l, ": ", Style::plain());
        push_span(&mut l, host, hs);
        push_span(&mut l, " ok=", Style::plain());
        push_owned(&mut l, dec_string(stats.ok as u64), Style::fg(Color::Green));
        push_span(&mut l, " changed=", Style::plain());
        push_owned(&mut l, dec_string(stats.changed as u64), Style::fg(Color::Yellow));
        push_span(&mut l, " failed=", Style::plain());
        push_owned(&mut l, dec_string(stats.failed as u64), Style::fg(Color::Red));
        push_span(&mut l, " skipped=", Style::plain());
        push_owned(&mut l, dec_string(stats.skipped as u64), Style::fg(Color::Cyan));
        push_span(&mut l, " unreachable=", Style::plain());
        push_owned(&mut l, dec_string(stats.unreachable as u64), Style::fg(Color::Magenta));
        proof {
            assert(line_view(l@) =~= recap_line(host@, *stats));
        }
        l
    }

    /// A playbook starts: counts and failures are reset, silently.
    pub fn on_playbook_start(&mut self, name: &str)
        ensures
            final(self).wf(),
            final(self).stats() == Map::<Seq<char>, HostStats>::empty(),
            !final(self).spec_failures(),
            final(self).spec_started(),
    {
        self.started = true;
        self.playbook_name = Some(name.to_owned());
        self.host_stats = HostTable::new();
        self.failures = false;
    }

    /// A play starts: its hosts get counts where they have none, silently.
    pub fn on_play_start(&mut self, name: &str, hosts: &Vec<String>)
        requires
            old(self).wf(),
        ensures
            final(self).wf(),
            final(self).spec_failures() == old(self).spec_failures(),
            final(self).spec_started() == old(self).spec_started(),
            forall|k: Seq<char>| #[trigger] final(self).stats().contains_key(k) <==> (old(self).stats().contains_key(k)
                || views(hosts@).contains(k)),
            forall|k: Seq<char>| #[trigger] final(self).stats().contains_key(k) ==> final(self).stats()[k] == stats_of(
                old(self).stats(),
                k,
            ),
    {
        let mut i: usize = 0;
        while i < hosts.len()
            invariant
                i <= hosts.len(),
                self.wf(),
                self.failures == old(self).failures,
                self.started == old(self).started,
                forall|k: Seq<char>| #[trigger] self.stats().contains_key(k) <==> (old(self).stats().contains_key(k)
                    || views(hosts@.subrange(0, i as int)).contains(k)),
                forall|k: Seq<char>| #[trigger] self.stats().contains_key(k) ==> self.stats()[k] == stats_of(
                    old(self).stats(),
                    k,
                ),
            decreases hosts.len() - i,
        {
            let ghost before = self.stats();
            self.host_stats.ensure(hosts[i].as_str(), HostStats { ok: 0, changed: 0, failed: 0, skipped: 0, unreachable: 0 });
            proof {
                let k0 = hosts@[i as int]@;
                assert forall|k: Seq<char>| #[trigger] self.stats().contains_key(k) implies self.stats()[k] == stats_of(
                    old(self).stats(),
                    k,
                ) by {
                    if before.contains_key(k) {
                        assert(self.stats()[k] == before[k]);
                    } else {
                        assert(k == k0);
                    }
                }
                let prev = views(hosts@.subrange(0, i as int));
                let cur = views(hosts@.subrange(0, i + 1));
                assert(cur =~= prev.push(hosts@[i as int]@));
                assert forall|k: Seq<char>| cur.contains(k) <==> (prev.contains(k) || k == hosts@[i as int]@) by {
                    if cur.contains(k) {
                        let j = choose|j: int| 0 <= j < cur.len() && cur[j] == k;
                        if j < prev.len() {
                            assert(prev[j] == k);
                        }
                    }
                    if prev.contains(k) {
                        let j = choose|j: int| 0 <= j < prev.len() && prev[j] == k;
                        assert(cur[j] == k);
                    }
                    if k == hosts@[i as int]@ {
                        assert(cur[i as int] == k);
                    }
                }
            }
            i = i + 1;
        }
        proof {
            assert(hosts@.subrange(0, i as int) =~= hosts@);
        }
    }

    /// A task finished: it is counted, and a failure is shown at once.
    pub fn on_task_complete(&mut self, result: &ExecutionResult) -> (out: Vec<Vec<Span>>)
        requires
            old(self).wf(),
        ensures
            final(self).wf(),
            final(self).spec_started() == old(self).spec_started(),
            final(self).stats() == old(self).stats().insert(
                result.host@,
                counted(stats_of(old(self).stats(), result.host@), result.result.skipped, result.result.success, result.result.changed),
            ),
            final(self).spec_failures() == (old(self).spec_failures() || (!result.result.skipped && !result.result.success)),
            lines_view(out@) == if !result.result.skipped && !result.result.success {
                seq![problem_line("FAILED"@, Color::Red, result.host@, result.task_name@, result.result.message@)]
            } else {
                Seq::<Seq<SpanView>>::empty()
            },
    {
        let host = result.host.as_str();
        let r = &result.result;
        let cur = match self.host_stats.get(host) {
            Some(st) => st,
            None => HostStats { ok: 0, changed: 0, failed: 0, skipped: 0, unreachable: 0 },
        };
        let mut out: Vec<Vec<Span>> = Vec::new();
        if r.skipped {
            self.host_stats.set(host, HostStats { skipped: inc(cur.skipped), ..cur });
        } else if !r.success {
            self.host_stats.set(host, HostStats { failed: inc(cur.failed), ..cur });
            self.failures = true;
            push_line(&mut out, Self::format_failure(host, result.task_name.as_str(), r.message.as_str()));
        } else if r.changed {
            self.host_stats.set(host, HostStats { changed: inc(cur.changed), ..cur });
        } else {
            self.host_stats.set(host, HostStats { ok: inc(cur.ok), ..cur });
        }
        proof {
            if r.skipped || r.success {
                assert(lines_view(out@) =~= Seq::<Seq<SpanView>>::empty());
            } else {
                assert(lines_view(out@) =~= seq![problem_line("FAILED"@, Color::Red, result.host@, result.task_name@, result.result.message@)]);
            }
        }
        out
    }

    /// A host could not be reached: it is counted and shown at once.
    pub fn on_host_unreachable(&mut self, host: &str, task_name: &str, error: &str) -> (out: Vec<Vec<Span>>)
        requires
            old(self).wf(),
        ensures
            final(self).wf(),
            final(self).spec_failures(),
            final(self).spec_started() == old(self).spec_started(),
            final(self).stats() == old(self).stats().insert(
                host@,
                HostStats { unreachable: wrap_inc(stats_of(old(self).stats(), host@).unreachable), ..stats_of(old(self).stats(), host@) },
            ),
            lines_view(out@) == seq![problem_line("UNREACHABLE"@, Color::Magenta, host@, task_name@, error@)],
    {
        let cur = match self.host_stats.get(host) {
            Some(st) => st,
            None => HostStats { ok: 0, changed: 0, failed: 0, skipped: 0, unreachable: 0 },
        };
        self.host_stats.set(host, HostStats { unreachable: inc(cur.unreachable), ..cur });
        self.failures = true;
        let mut out: Vec<Vec<Span>> = Vec::new();
        push_line(&mut out, Self::format_unreachable(host, task_name, error));
        proof {
            assert(lines_view(out@) =~= seq![problem_line("UNREACHABLE"@, Color::Magenta, host@, task_name@, error@)]);
        }
        out
    }

    /// The playbook ended: a recap line per host in name order, and once a
    /// playbook started its name, how it ended and `elapsed_secs` (the
    /// seconds it took, to two decimals).
    pub fn on_playbook_end(&self, name: &str, success: bool, elapsed_secs: &str) -> (out: Vec<Vec<Span>>)
        requires
            self.wf(),
        ensures
            lines_view(out@) == (if self.stats().dom().len() > 0 { seq![Seq::<SpanView>::empty()] } else { Seq::<Seq<SpanView>>::empty() })
                + recap_lines(sorted_keys(self.stats()), self.stats()) + if self.spec_started() {
                seq![
                    Seq::<SpanView>::empty(),
                    seq![
                        (name@, bold_style(Color::BrightWhite)),
                        (" "@, plain_style()),
                        if success { ("completed"@, color_style(Color::Green)) } else { ("failed"@, bold_style(Color::Red)) },
                        (" in "@ + elapsed_secs@ + "s"@, plain_style()),
                    ],
                ]
            } else {
                Seq::<Seq<SpanView>>::empty()
            },
    {
        let ghost m = self.stats();
        let mut out: Vec<Vec<Span>> = Vec::new();
        proof {
            self.host_stats.lemma_view();
        }
        if self.host_stats.len() > 0 {
            push_line(&mut out, blank());
        }
        let hosts = self.host_stats.sorted_names();
        let ghost hs = views(hosts@);
        proof {
            lemma_sorted_keys(hs, m);
            assert(recap_lines(hs.subrange(0, 0), m) =~= Seq::<Seq<SpanView>>::empty());
        }
        let ghost head = lines_view(out@);
        proof {
            assert(head =~= if m.dom().len() > 0 { seq![Seq::<SpanView>::empty()] } else { Seq::<Seq<SpanView>>::empty() });
        }
        let mut i: usize = 0;
        while i < hosts.len()
            invariant
                self.wf(),
                m == self.stats(),
                hs == views(hosts@),
                hs.len() == hosts@.len(),
                forall|k: Seq<char>| m.contains_key(k) <==> hs.contains(k),
                i <= hosts.len(),
                lines_view(out@) == head + recap_lines(hs.subrange(0, i as int), m),
            decreases hosts.len() - i,
        {
            let h = hosts[i].as_str();
            proof {
                assert(hs[i as int] == h@);
                assert(hs.contains(h@));
            }
            let st = self.host_stats.get(h).unwrap();
            push_line(&mut out, Self::format_recap_line(h, &st));
            proof {
                assert(recap_lines(hs.subrange(0, i + 1), m) =~= recap_lines(hs.subrange(0, i as int), m).push(recap_line(h@, m[h@])));
                assert(lines_view(out@) =~= head + recap_lines(hs.subrange(0, i + 1), m));
            }
            i = i + 1;
        }
        proof {
            assert(hs.subrange(0, i as int) =~= hs);
        }
        let ghost mid = lines_view(out@);
        if self.started {
            push_line(&mut out, blank());
            let mut l = Vec::new();
            push_span(&mut l, name, Style::bold(Color::BrightWhite));
            push_span(&mut l, " ", Style::plain());
            if success {
                push_span(&mut l, "completed", Style::fg(Color::Green));
            } else {
                push_span(&mut l, "failed", Style::bold(Color::Red));
            }
            let mut t = String::new();
            push_str(&mut t, " in ");
            push_str(&mut t, elapsed_secs);
            push_str(&mut t, "s");
            push_owned(&mut l, t, Style::plain());
            proof {
                assert(line_view(l@) =~= seq![
                    (name@, bold_style(Color::BrightWhite)),
                    (" "@, plain_style()),
                    if success { ("completed"@, color_style(Color::Green)) } else { ("failed"@, bold_style(Color::Red)) },
                    (" in "@ + elapsed_secs@ + "s"@, plain_style()),
                ]);
            }
            push_line(&mut out, l);
        } else {
            proof {
                assert(lines_view(out@) =~= mid + Seq::<Seq<SpanView>>::empty());
            }
        }
        out
    }
}

impl Default for MinimalCallback {
    fn default() -> (c: Self)
        ensures
            c.wf(),
            c.stats() == Map::<Seq<char>, HostStats>::empty(),
            !c.spec_failures(),
    {
        Self::new()
    }
}

} // verus!
