//! The JSON plugin: one JSON object per event (JSON lines), with per-host
//! counts. Objects are serialized and written by the caller; this module
//! holds what they contain and the counts.
use vstd::prelude::*;
use crate::table::HostTable;
use crate::types::{copy_json, inc, jview, table_entries, table_object, wrap_inc, JsonValue, JsonView, ModuleResult};

verus! {

/// Task counts for one host.
#[derive(Clone, Copy, Debug, PartialEq, Eq, Structural)]
pub struct HostStats {
    pub ok: u32,
    pub changed: u32,
    pub failed: u32,
    pub skipped: u32,
    pub unreachable: u32,
}

impl HostStats {
    /// Nothing counted.
    pub fn new() -> (s: Self)
        ensures
            s == (HostStats { ok: 0, changed: 0, failed: 0, skipped: 0, unreachable: 0 }),
    {
        HostStats { ok: 0, changed: 0, failed: 0, skipped: 0, unreachable: 0 }
    }

    /// Whether a task failed or the host was unreachable.
    pub fn has_failures(&self) -> (b: bool)
        ensures
            b == (self.failed > 0 || self.unreachable > 0),
    {
        self.failed > 0 || self.unreachable > 0
    }
}

impl Default for HostStats {
    fn default() -> (s: Self)
        ensures
            s == (HostStats { ok: 0, changed: 0, failed: 0, skipped: 0, unreachable: 0 }),
    {
        HostStats::new()
    }
}

/// The counts after a finished task: skip first, then failure, then change.
pub open spec fn counted(s: HostStats, r: ModuleResult) -> HostStats {
    if r.skipped {
        HostStats { skipped: wrap_inc(s.skipped), ..s }
    } else if !r.success {
        HostStats { failed: wrap_inc(s.failed), ..s }
    } else if r.changed {
        HostStats { changed: wrap_inc(s.changed), ..s }
    } else {
        HostStats { ok: wrap_inc(s.ok), ..s }
    }
}

/// A finished task counts once, under its own kind: a skipped task as
/// skipped, else a task that did not succeed as failed, else a changed one
/// as changed, else as ok; the other counts stay as they were.
pub proof fn lemma_count_result(s: HostStats, r: crate::types::ModuleResult)
    requires
        s.ok < u32::MAX,
        s.changed < u32::MAX,
        s.failed < u32::MAX,
        s.skipped < u32::MAX,
    ensures
        counted(s, r).failed == s.failed + if !r.skipped && !r.success { 1int } else { 0int },
        counted(s, r).skipped == s.skipped + if r.skipped { 1int } else { 0int },
        counted(s, r).changed == s.changed + if !r.skipped && r.success && r.changed { 1int } else { 0int },
        counted(s, r).ok == s.ok + if !r.skipped && r.success && !r.changed { 1int } else { 0int },
        counted(s, r).unreachable == s.unreachable,
{
}

/// The counts of `host`, zero if it has none.
pub open spec fn stats_of(m: Map<Seq<char>, HostStats>, host: Seq<char>) -> HostStats {
    if m.contains_key(host) {
        m[host]
    } else {
        HostStats { ok: 0, changed: 0, failed: 0, skipped: 0, unreachable: 0 }
    }
}

/// A task's result as it appears in an event: the message only when it is
/// not empty.
#[derive(Debug)]
pub struct TaskResultJson {
    pub success: bool,
    pub changed: bool,
    pub msg: Option<String>,
    pub skipped: bool,
    pub data: Option<JsonValue>,
    pub warnings: Vec<String>,
}

impl TaskResultJson {
    /// The event form of a module result.
    pub fn from_result(result: &ModuleResult) -> (t: Self)
        ensures
            t.success == result.success,
            t.changed == result.changed,
            t.skipped == result.skipped,
            t.msg is None <==> result.message@.len() == 0,
            t.msg matches Some(m) ==> m@ == result.message@,
            t.data is None <==> result.data is None,
            t.data matches Some(d) ==> jview(d) == jview(result.data.unwrap()),
            crate::table::views(t.warnings@) == crate::table::views(result.warnings@),
    {
        let msg = if result.message.as_str().is_empty() {
            None
        } else {
            Some(result.message.clone())
        };
        let data = match &result.data {
            Some(d) => Some(copy_json(d)),
            None => None,
        };
        let mut warnings: Vec<String> = Vec::new();
        let mut i: usize = 0;
        while i < result.warnings.len()
            invariant
                i <= result.warnings@.len(),
                crate::table::views(warnings@) == crate::table::views(result.warnings@).subrange(0, i as int),
            decreases result.warnings.len() - i,
        {
            let ghost before = crate::table::views(warnings@);
            warnings.push(result.warnings[i].clone());
            proof {
                assert(crate::table::views(warnings@) =~= before.push(result.warnings@[i as int]@));
                assert(crate::table::views(warnings@) =~= crate::table::views(result.warnings@).subrange(0, i + 1));
            }
            i = i + 1;
        }
        proof {
            assert(crate::table::views(result.warnings@).subrange(0, i as int) =~= crate::table::views(result.warnings@));
        }
        TaskResultJson {
            success: result.success,
            changed: result.changed,
            msg,
            skipped: result.skipped,
            data,
            warnings,
        }
    }
}

/// Where the events go.
#[derive(Clone, Debug, PartialEq, Eq)]
pub enum OutputTarget {
    Stdout,
    Stderr,
    File(String),
}

/// How events are written.
#[derive(Clone, Debug)]
pub struct JsonSettings {
    /// Indented multi-line JSON.
    pub pretty: bool,
    /// 0 minimal, 1 messages and warnings, 2 data and facts.
    pub verbosity: u8,
    /// Where events go.
    pub output: OutputTarget,
}

/// Builds the settings of a JSON callback step by step.
#[derive(Clone, Debug)]
pub struct JsonCallbackBuilder {
    pub pretty: bool,
    pub verbosity: u8,
    pub output: OutputTarget,
}

impl JsonCallbackBuilder {
    /// Compact JSON to standard output.
    pub fn new() -> (b: Self)
        ensures
            !b.pretty,
            b.verbosity == 0,
            b.output == OutputTarget::Stdout,
    {
        JsonCallbackBuilder { pretty: false, verbosity: 0, output: OutputTarget::Stdout }
    }

    /// Turns indented output on or off.
    pub fn pretty(self, enabled: bool) -> (b: Self)
        ensures
            b.pretty == enabled,
            b.verbosity == self.verbosity,
            b.output == self.output,
    {
        JsonCallbackBuilder { pretty: enabled, ..self }
    }

    /// Sets the verbosity.
    pub fn verbosity(self, level: u8) -> (b: Self)
        ensures
            b.pretty == self.pretty,
            b.verbosity == level,
            b.output == self.output,
    {
        JsonCallbackBuilder { verbosity: level, ..self }
    }

    /// Writes to standard output.
    pub fn output_stdout(self) -> (b: Self)
        ensures
            b.pretty == self.pretty,
            b.verbosity == self.verbosity,
            b.output == OutputTarget::Stdout,
    {
        JsonCallbackBuilder { output: OutputTarget::Stdout, ..self }
    }

    /// Writes to standard error.
    pub fn output_stderr(self) -> (b: Self)
        ensures
            b.pretty == self.pretty,
            b.verbosity == self.verbosity,
            b.output == OutputTarget::Stderr,
    {
        JsonCallbackBuilder { output: OutputTarget::Stderr, ..self }
    }

    /// Writes to a file.
    pub fn output_file(self, path: &str) -> (b: Self)
        ensures
            b.pretty == self.pretty,
            b.verbosity == self.verbosity,
            b.output matches OutputTarget::File(p) && p@ == path@,
    {
        JsonCallbackBuilder { output: OutputTarget::File(path.to_owned()), ..self }
    }

    /// The settings.
    pub fn build(self) -> (s: JsonSettings)
        ensures
            s.pretty == self.pretty,
            s.verbosity == self.verbosity,
            s.output == self.output,
    {
        JsonSettings { pretty: self.pretty, verbosity: self.verbosity, output: self.output }
    }
}

/// The counts of a JSON callback.
#[derive(Debug)]
pub struct JsonStats {
    host_stats: HostTable<HostStats>,
    failures: bool,
}

impl JsonStats {
    /// The table is well formed.
    pub closed spec fn wf(&self) -> bool {
        self.host_stats.wf()
    }

    /// The counts per host.
    pub closed spec fn stats(&self) -> Map<Seq<char>, HostStats> {
        self.host_stats@
    }

    /// Whether something failed.
    pub closed spec fn spec_failures(&self) -> bool {
        self.failures
    }

    /// Nothing counted.
    pub fn new() -> (s: Self)
        ensures
            s.wf(),
            s.stats() == Map::<Seq<char>, HostStats>::empty(),
            !s.spec_failures(),
    {
        JsonStats { host_stats: HostTable::new(), failures: false }
    }

    /// Whether something failed.
    pub fn has_failures(&self) -> (b: bool)
        ensures
            b == self.spec_failures(),
    {
        self.failures
    }

    /// The counts of `host`, if it has any.
    pub fn host_stats(&self, host: &str) -> (r: Option<HostStats>)
        requires
            self.wf(),
        ensures
            r == if self.stats().contains_key(host@) {
                Some(self.stats()[host@])
            } else {
                None::<HostStats>
            },
    {
        self.host_stats.get(host)
    }

    /// Counts a task result for a host; a failure is noted.
    pub fn record_task_result(&mut self, host: &str, result: &ModuleResult)
        requires
            old(self).wf(),
        ensures
            final(self).wf(),
            final(self).stats() == old(self).stats().insert(host@, counted(stats_of(old(self).stats(), host@), *result)),
            final(self).spec_failures() == (old(self).spec_failures() || (!result.skipped && !result.success)),
    {
        let cur = match self.host_stats.get(host) {
            Some(s) => s,
            None => HostStats::new(),
        };
        let next = if result.skipped {
            HostStats { skipped: inc(cur.skipped), ..cur }
        } else if !result.success {
            self.failures = true;
            HostStats { failed: inc(cur.failed), ..cur }
        } else if result.changed {
            HostStats { changed: inc(cur.changed), ..cur }
        } else {
            HostStats { ok: inc(cur.ok), ..cur }
        };
        self.host_stats.set(host, next);
    }
}


/// The facts a facts event carries: all of them as one object from
/// verbosity 2, none below.
pub fn facts_payload(settings: &JsonSettings, facts: &HostTable<JsonValue>) -> (r: Option<JsonValue>)
    requires
        facts.wf(),
    ensures
        r is Some == (settings.verbosity >= 2),
        r matches Some(v) ==> jview(v) == JsonView::Object(table_entries(*facts)),
{
    if settings.verbosity >= 2 {
        Some(table_object(facts))
    } else {
        None
    }
}

} // verus!
