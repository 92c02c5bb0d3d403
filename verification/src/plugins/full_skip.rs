//! The full-skip plugin: why each task was skipped, and the skips grouped
//! by the condition that caused them.
use vstd::prelude::*;
use crate::plugins::actionable::opt_chars;
use crate::style::{
    append_lines, blank, bold_style, color_style, line_view, lines_view, plain_style, push_line, push_owned, push_span,
    Color, Span, SpanView, Style,
};
use crate::table::HostTable;
use crate::text::{
    chars_of, dec, dec_string, find_at, occurs_at, find_in, join_seq, join_strings, lemma_find_at_some, push_str,
    repeat_char, repeat_string, str_eq, string_of_chars, strip_prefix_or_keep,
    strip_prefix_seq,
};
use crate::types::{inc, wrap_inc, Elapsed, ExecutionResult};
use crate::plugins::dense::{is_first_min, lemma_stable_sort_step, stable_sort};

verus! {

// ---------------------------------------------------------------------------
// Settings
// ---------------------------------------------------------------------------

/// Settings of the full-skip plugin.
#[derive(Clone, Copy, Debug, PartialEq, Eq, Structural)]
pub struct FullSkipConfig {
    /// Show the variables recorded with a skip.
    pub show_variable_values: bool,
    /// Show each skip as it happens.
    pub show_inline: bool,
    /// Show the summary when the playbook ends.
    pub show_summary: bool,
    /// Group the skips by condition in the summary.
    pub group_by_condition: bool,
    /// Hosts listed per task in the summary before the rest is counted.
    pub max_hosts_per_condition: usize,
    /// Show the `when` expression of a skip.
    pub show_condition_expression: bool,
    /// 0 is quiet, 1 normal, 2 verbose.
    pub verbosity: u8,
}

/// The default settings: everything shown, five hosts per task, normal
/// verbosity.
pub open spec fn default_full_skip_config() -> FullSkipConfig {
    FullSkipConfig {
        show_variable_values: true,
        show_inline: true,
        show_summary: true,
        group_by_condition: true,
        max_hosts_per_condition: 5,
        show_condition_expression: true,
        verbosity: 1,
    }
}

impl Default for FullSkipConfig {
    fn default() -> (c: Self)
        ensures
            c == default_full_skip_config(),
    {
        FullSkipConfig {
            show_variable_values: true,
            show_inline: true,
            show_summary: true,
            group_by_condition: true,
            max_hosts_per_condition: 5,
            show_condition_expression: true,
            verbosity: 1,
        }
    }
}

// ---------------------------------------------------------------------------
// Skip messages
// ---------------------------------------------------------------------------

/// The text that opens a quoted condition in a skip message.
pub open spec fn condition_marker() -> Seq<char> {
    "condition '"@
}

/// The text that closes a quoted condition that was false.
pub open spec fn false_marker() -> Seq<char> {
    "' was false"@
}

/// A skip message read as a condition and a reason: a condition quoted
/// after `condition '` up to the next quote gives that condition and
/// "Condition '...' evaluated to false"; otherwise there is no condition
/// and the reason is the message without a leading `Skipped: `.
pub open spec fn parsed_skip(m: Seq<char>) -> (Option<Seq<char>>, Seq<char>) {
    let fallback = (None::<Seq<char>>, strip_prefix_seq(m, "Skipped: "@));
    match find_at(m, condition_marker(), 0) {
        Some(start) => match find_at(m, "'"@, start + condition_marker().len()) {
            Some(end) => {
                let c = m.subrange(start + condition_marker().len(), end);
                (Some(c), "Condition '"@ + c + "' evaluated to false"@)
            },
            None => fallback,
        },
        None => fallback,
    }
}

/// The condition read back from a reason: the text between `condition '`
/// and the next `' was false` (searched from the marker's start), or the
/// whole reason.
pub open spec fn condition_in_reason(m: Seq<char>) -> Seq<char> {
    match find_at(m, condition_marker(), 0) {
        Some(start) => match find_at(m, false_marker(), start) {
            Some(end) => m.subrange(start + condition_marker().len(), end),
            None => m,
        },
        None => m,
    }
}

/// The closing text does not start inside the opening one, so the text
/// between them is well defined.
pub open spec fn reason_readable(m: Seq<char>) -> bool {
    match find_at(m, condition_marker(), 0) {
        Some(start) => match find_at(m, false_marker(), start) {
            Some(end) => start + condition_marker().len() <= end,
            None => true,
        },
        None => true,
    }
}

/// Reads a skip message as a condition and a reason.
pub fn parse_skip_reason(message: &str) -> (r: (Option<String>, String))
    ensures
        (opt_chars(r.0), r.1@) == parsed_skip(message@),
{
    let v = chars_of(message);
    let n = v.len();
    let marker = chars_of("condition '");
    match find_in(&v, &marker, 0) {
        Some(start) => {
            proof {
                lemma_find_at_some(v@, marker@, 0);
                assert(occurs_at(v@, marker@, start as int));
            }
            let from = start + marker.len();
            let quote = chars_of("'");
            match find_in(&v, &quote, from) {
                Some(end) => {
                    proof {
                        lemma_find_at_some(v@, quote@, from as int);
                    }
                    let cond = string_of_chars(&v, from, end);
                    let mut reason = String::new();
                    push_str(&mut reason, "Condition '");
                    push_str(&mut reason, cond.as_str());
                    push_str(&mut reason, "' evaluated to false");
                    return (Some(cond), reason);
                },
                None => {},
            }
        },
        None => {},
    }
    (None, strip_prefix_or_keep(message, "Skipped: "))
}

// ---------------------------------------------------------------------------
// Skipped tasks
// ---------------------------------------------------------------------------

/// One skipped task.
#[derive(Debug)]
pub struct SkippedTask {
    /// The task's name.
    pub task_name: String,
    /// The host it was skipped on.
    pub host: String,
    /// The `when` condition that was false, if known.
    pub when_condition: Option<String>,
    /// Why it was skipped.
    pub skip_reason: String,
    /// Variables recorded with the skip.
    pub variable_context: HostTable<String>,
    /// Its place among the skips of the run.
    pub order: u64,
    /// When it was skipped (a clock reading, as time since the clock's
    /// start).
    pub timestamp: Option<Elapsed>,
}

impl SkippedTask {
    /// A skipped task without condition or variables, skipped at `now`.
    pub fn new(task_name: String, host: String, skip_reason: String, order: u64, now: Elapsed) -> (t: Self)
        ensures
            t.timestamp == Some(now),
            t.task_name == task_name,
            t.host == host,
            t.when_condition.is_none(),
            t.skip_reason == skip_reason,
            t.variable_context.wf(),
            t.variable_context@ == Map::<Seq<char>, String>::empty(),
            t.variable_context.names() == Seq::<Seq<char>>::empty(),
            t.order == order,
    {
        SkippedTask {
            task_name,
            host,
            when_condition: None,
            skip_reason,
            variable_context: HostTable::new(),
            order,
            timestamp: Some(now),
        }
    }

    /// The same task with its `when` condition set.
    pub fn with_condition(self, condition: String) -> (t: Self)
        ensures
            t == (SkippedTask { when_condition: Some(condition), ..self }),
    {
        SkippedTask { when_condition: Some(condition), ..self }
    }

    /// The same task with one more recorded variable (a name already present
    /// gets the new value).
    pub fn with_variable(self, name: String, value: String) -> (t: Self)
        requires
            self.variable_context.wf(),
        ensures
            t.variable_context.wf(),
            t.variable_context@ == self.variable_context@.insert(name@, value),
            self.variable_context@.contains_key(name@) ==> t.variable_context.names()
                == self.variable_context.names(),
            !self.variable_context@.contains_key(name@) ==> t.variable_context.names()
                == self.variable_context.names().push(name@),
            t.task_name == self.task_name,
            t.host == self.host,
            t.when_condition == self.when_condition,
            t.skip_reason == self.skip_reason,
            t.order == self.order,
    {
        let mut t = self;
        t.variable_context.set(name.as_str(), value);
        t
    }

    /// Whether the condition of the skip can be read: see `readable`.
    pub fn is_readable(&self) -> (b: bool)
        ensures
            b == readable(*self),
    {
        if self.when_condition.is_some() {
            return true;
        }
        let v = chars_of(self.skip_reason.as_str());
        let marker = chars_of("condition '");
        proof {
            reveal_strlit("condition '");
            reveal_strlit("' was false");
        }
        match find_in(&v, &marker, 0) {
            Some(start) => {
                proof {
                    lemma_find_at_some(v@, marker@, 0);
                }
                let closing = chars_of("' was false");
                match find_in(&v, &closing, start) {
                    Some(end) => end >= start && end - start >= marker.len(),
                    None => true,
                }
            },
            None => true,
        }
    }

    /// The condition of the skip: the `when` condition where it is known,
    /// else the one quoted in the reason, else the reason itself.
    pub fn extract_condition(&self) -> (r: String)
        requires
            self.when_condition.is_some() || reason_readable(self.skip_reason@),
        ensures
            r@ == match self.when_condition {
                Some(c) => c@,
                None => condition_in_reason(self.skip_reason@),
            },
    {
        match &self.when_condition {
            Some(c) => c.clone(),
            None => {
                let v = chars_of(self.skip_reason.as_str());
                let marker = chars_of("condition '");
                match find_in(&v, &marker, 0) {
                    Some(start) => {
                        proof {
                            lemma_find_at_some(v@, marker@, 0);
                        }
                        let closing = chars_of("' was false");
                        match find_in(&v, &closing, start) {
                            Some(end) => {
                                proof {
                                    lemma_find_at_some(v@, closing@, start as int);
                                }
                                string_of_chars(&v, start + marker.len(), end)
                            },
                            None => self.skip_reason.clone(),
                        }
                    },
                    None => self.skip_reason.clone(),
                }
            },
        }
    }
}

/// Task counts of one host.
#[derive(Debug)]
pub struct HostSkipStats {
    /// Tasks finished on the host.
    pub total_tasks: u32,
    /// Tasks skipped on the host.
    pub skipped_tasks: u32,
    /// Skips per condition.
    pub skip_conditions: HostTable<u32>,
}

impl Default for HostSkipStats {
    fn default() -> (s: Self)
        ensures
            s.total_tasks == 0,
            s.skipped_tasks == 0,
            s.skip_conditions.wf(),
            s.skip_conditions@ == Map::<Seq<char>, u32>::empty(),
    {
        HostSkipStats { total_tasks: 0, skipped_tasks: 0, skip_conditions: HostTable::new() }
    }
}

/// The skips of one condition.
#[derive(Debug)]
pub struct SkipPattern {
    /// The condition.
    pub condition: String,
    /// How many skips it caused.
    pub count: usize,
    /// The skipped tasks, as task name and host.
    pub tasks: Vec<(String, String)>,
}


// ---------------------------------------------------------------------------
// Grouping by key
// ---------------------------------------------------------------------------

/// The distinct keys of `ks`, in the order they first appear.
pub open spec fn first_keys(ks: Seq<Seq<char>>) -> Seq<Seq<char>>
    decreases ks.len(),
{
    if ks.len() == 0 {
        Seq::empty()
    } else {
        let r = first_keys(ks.drop_last());
        if r.contains(ks.last()) {
            r
        } else {
            r.push(ks.last())
        }
    }
}

/// The positions of `k` in `ks`, in increasing order.
pub open spec fn positions_of(ks: Seq<Seq<char>>, k: Seq<char>) -> Seq<int>
    decreases ks.len(),
{
    if ks.len() == 0 {
        Seq::empty()
    } else {
        let r = positions_of(ks.drop_last(), k);
        if ks.last() == k {
            r.push(ks.len() - 1)
        } else {
            r
        }
    }
}

/// A key and the positions where it occurs.
pub type GroupView = (Seq<char>, Seq<int>);

/// The keys of `ks` in order of first appearance, each with its positions.
pub open spec fn groups_of(ks: Seq<Seq<char>>) -> Seq<GroupView> {
    let fk = first_keys(ks);
    Seq::new(fk.len(), |i: int| (fk[i], positions_of(ks, fk[i])))
}

/// The first keys are the keys, each once.
pub proof fn lemma_first_keys(ks: Seq<Seq<char>>)
    ensures
        forall|k: Seq<char>| first_keys(ks).contains(k) <==> ks.contains(k),
        first_keys(ks).no_duplicates(),
    decreases ks.len(),
{
    if ks.len() > 0 {
        let p = ks.drop_last();
        let l = ks.last();
        lemma_first_keys(p);
        let r = first_keys(p);
        assert forall|k: Seq<char>| ks.contains(k) <==> (p.contains(k) || k == l) by {
            if ks.contains(k) {
                let i = choose|i: int| 0 <= i < ks.len() && ks[i] == k;
                if i < ks.len() - 1 {
                    assert(p[i] == k);
                }
            }
            if p.contains(k) {
                let i = choose|i: int| 0 <= i < p.len() && p[i] == k;
                assert(ks[i] == k);
            }
            if k == l {
                assert(ks[ks.len() - 1] == k);
            }
        }
        if !r.contains(l) {
            assert forall|k: Seq<char>| r.push(l).contains(k) <==> (r.contains(k) || k == l) by {
                if r.push(l).contains(k) {
                    let i = choose|i: int| 0 <= i < r.push(l).len() && r.push(l)[i] == k;
                    if i < r.len() {
                        assert(r[i] == k);
                    }
                }
                if r.contains(k) {
                    let i = choose|i: int| 0 <= i < r.len() && r[i] == k;
                    assert(r.push(l)[i] == k);
                }
                if k == l {
                    assert(r.push(l)[r.len() as int] == k);
                }
            }
            assert forall|a: int, b: int| 0 <= a < b < r.push(l).len() implies r.push(l)[a] != r.push(l)[b] by {
                if b == r.len() {
                    assert(r.contains(r[a]));
                }
            }
        }
    }
}

/// The positions of `k` are in range, hold `k`, increase, and are empty
/// where `k` does not occur.
pub proof fn lemma_positions(ks: Seq<Seq<char>>, k: Seq<char>)
    ensures
        forall|j: int| 0 <= j < positions_of(ks, k).len() ==> 0 <= #[trigger] positions_of(ks, k)[j] < ks.len()
            && ks[positions_of(ks, k)[j]] == k,
        positions_of(ks, k).len() <= ks.len(),
        !ks.contains(k) ==> positions_of(ks, k).len() == 0,
    decreases ks.len(),
{
    if ks.len() > 0 {
        let p = ks.drop_last();
        lemma_positions(p, k);
        if !ks.contains(k) {
            assert forall|i: int| 0 <= i < p.len() implies p[i] != k by {
                assert(ks[i] == p[i]);
            }
            assert(ks[ks.len() - 1] == ks.last());
        }
    }
}

/// A key and its positions, as exec values.
pub open spec fn group_view(g: (String, Vec<usize>)) -> GroupView {
    (g.0@, g.1@.map_values(|p: usize| p as int))
}

/// The views of groups.
pub open spec fn group_views(gs: Seq<(String, Vec<usize>)>) -> Seq<GroupView> {
    Seq::new(gs.len(), |i: int| group_view(gs[i]))
}

/// Groups the positions of `ks` by key, keys in order of first appearance.
pub fn group_positions(ks: &Vec<String>) -> (r: Vec<(String, Vec<usize>)>)
    ensures
        group_views(r@) == groups_of(crate::text::views(ks@)),
{
    let ghost all = crate::text::views(ks@);
    let mut r: Vec<(String, Vec<usize>)> = Vec::new();
    let mut i: usize = 0;
    proof {
        assert(group_views(r@) =~= groups_of(all.take(0)));
    }
    while i < ks.len()
        invariant
            i <= ks.len(),
            all == crate::text::views(ks@),
            group_views(r@) == groups_of(all.take(i as int)),
        decreases ks.len() - i,
    {
        let ghost prev = all.take(i as int);
        let ghost cur = all.take(i + 1);
        let ghost k = ks@[i as int]@;
        proof {
            assert(cur.drop_last() =~= prev);
            assert(cur.last() == k);
            lemma_first_keys(prev);
        }
        let mut j: usize = 0;
        let mut found: Option<usize> = None;
        while j < r.len() && found.is_none()
            invariant
                j <= r.len(),
                i < ks.len(),
                k == ks@[i as int]@,
                found matches Some(x) ==> x < r.len() && r@[x as int].0@ == k,
                found is None ==> forall|q: int| 0 <= q < j ==> (#[trigger] r@[q]).0@ != k,
            decreases r.len() - j,
        {
            if str_eq(r[j].0.as_str(), ks[i].as_str()) {
                found = Some(j);
            }
            j = j + 1;
        }
        let ghost old_r = group_views(r@);
        let ghost rs = r@;
        proof {
            assert(old_r == groups_of(prev));
            assert(old_r.len() == rs.len());
            assert(rs.len() == first_keys(prev).len());
        }
        match found {
            Some(j) => {
                let ghost old_ps = rs[j as int].1@;
                let (key, mut ps) = r.remove(j);
                ps.push(i);
                let ghost new_entry = (key, ps);
                r.insert(j, (key, ps));
                proof {
                    let fk = first_keys(prev);
                    let f = |p: usize| p as int;
                    assert(r@ =~= rs.update(j as int, new_entry));
                    assert(ps@ == old_ps.push(i));
                    assert(rs.len() == fk.len());
                    assert(old_r[j as int] == group_view(rs[j as int]));
                    assert(old_r[j as int].0 == k);
                    assert(fk[j as int] == k);
                    assert(fk.contains(k));
                    assert(first_keys(cur) == fk);
                    assert forall|q: int| 0 <= q < fk.len() implies #[trigger] group_views(r@)[q] == groups_of(cur)[q] by {
                        assert(groups_of(cur)[q] == (fk[q], positions_of(cur, fk[q])));
                        assert(old_r[q] == (fk[q], positions_of(prev, fk[q])));
                        if q == j {
                            assert(positions_of(cur, k) == positions_of(prev, k).push(i as int));
                            assert(old_r[q].1 == old_ps.map_values(f));
                            assert(group_view(r@[q]).1 =~= old_ps.map_values(f).push(i as int));
                        } else {
                            assert(fk[q] != fk[j as int]);
                            assert(r@[q] == rs[q]);
                            assert(positions_of(cur, fk[q]) == positions_of(prev, fk[q]));
                        }
                    }
                    assert(group_views(r@) =~= groups_of(cur));
                }
            },
            None => {
                let mut ps: Vec<usize> = Vec::new();
                ps.push(i);
                r.push((ks[i].clone(), ps));
                proof {
                    let fk = first_keys(prev);
                    assert(rs.len() == fk.len());
                    assert forall|q: int| 0 <= q < fk.len() implies fk[q] != k by {
                        assert(old_r[q].0 == fk[q]);
                        assert(r@[q] == rs[q]);
                    }
                    assert(!fk.contains(k));
                    assert(!prev.contains(k));
                    lemma_positions(prev, k);
                    assert(first_keys(cur) == fk.push(k));
                    assert forall|q: int| 0 <= q <= fk.len() implies #[trigger] group_views(r@)[q] == groups_of(cur)[q] by {
                        if q == fk.len() {
                            assert(group_view(r@[q]).1 =~= seq![i as int]);
                            assert(positions_of(cur, k) =~= seq![i as int]);
                        } else {
                            assert(r@[q] == rs[q]);
                            assert(old_r[q] == (fk[q], positions_of(prev, fk[q])));
                            assert(positions_of(cur, fk[q]) == positions_of(prev, fk[q]));
                        }
                    }
                    assert(group_views(r@) =~= groups_of(cur));
                }
            },
        }
        i = i + 1;
    }
    proof {
        assert(all.take(i as int) =~= all);
    }
    r
}


// ---------------------------------------------------------------------------
// Skip patterns
// ---------------------------------------------------------------------------

/// A task name and a host.
pub type PairView = (Seq<char>, Seq<char>);

/// A condition, how many skips it caused, and the skipped tasks.
pub type PatternView = (Seq<char>, nat, Seq<PairView>);

/// The condition a skipped task is grouped under.
pub open spec fn task_condition(t: SkippedTask) -> Seq<char> {
    match t.when_condition {
        Some(c) => c@,
        None => condition_in_reason(t.skip_reason@),
    }
}

/// The condition of a skipped task can be read without fault.
pub open spec fn readable(t: SkippedTask) -> bool {
    t.when_condition.is_some() || reason_readable(t.skip_reason@)
}

/// The conditions of skipped tasks.
pub open spec fn conditions_of(ts: Seq<SkippedTask>) -> Seq<Seq<char>> {
    Seq::new(ts.len(), |i: int| task_condition(ts[i]))
}

/// The task name and host of a skipped task.
pub open spec fn pair_of(t: SkippedTask) -> PairView {
    (t.task_name@, t.host@)
}

/// The pattern of one group of skipped tasks.
pub open spec fn pattern_of(ts: Seq<SkippedTask>, g: GroupView) -> PatternView {
    (g.0, g.1.len(), g.1.map_values(|p: int| pair_of(ts[p])))
}

/// The skipped tasks grouped by condition, conditions in order of first
/// appearance.
pub open spec fn grouped_patterns(ts: Seq<SkippedTask>) -> Seq<PatternView> {
    groups_of(conditions_of(ts)).map_values(|g: GroupView| pattern_of(ts, g))
}

/// More skips first.
pub open spec fn by_count_desc() -> spec_fn(PatternView, PatternView) -> bool {
    |a: PatternView, b: PatternView| a.1 >= b.1
}

/// The skip patterns: grouped by condition, the conditions with more skips
/// first, equal counts in order of first appearance.
pub open spec fn skip_patterns_of(ts: Seq<SkippedTask>) -> Seq<PatternView> {
    stable_sort(grouped_patterns(ts), by_count_desc())
}

/// Pairs of strings, as values.
pub open spec fn pair_views(v: Seq<(String, String)>) -> Seq<PairView> {
    Seq::new(v.len(), |i: int| (v[i].0@, v[i].1@))
}

/// A skip pattern, as a value.
pub open spec fn pattern_view(p: SkipPattern) -> PatternView {
    (p.condition@, p.count as nat, pair_views(p.tasks@))
}

/// Skip patterns, as values.
pub open spec fn pattern_views(ps: Seq<SkipPattern>) -> Seq<PatternView> {
    Seq::new(ps.len(), |i: int| pattern_view(ps[i]))
}

/// The conditions of the skipped tasks.
fn conditions(ts: &Vec<SkippedTask>) -> (r: Vec<String>)
    requires
        forall|i: int| 0 <= i < ts@.len() ==> readable(#[trigger] ts@[i]),
    ensures
        crate::text::views(r@) == conditions_of(ts@),
{
    let mut r: Vec<String> = Vec::new();
    let mut i: usize = 0;
    while i < ts.len()
        invariant
            i <= ts.len(),
            forall|q: int| 0 <= q < ts@.len() ==> readable(#[trigger] ts@[q]),
            crate::text::views(r@) == conditions_of(ts@).take(i as int),
        decreases ts.len() - i,
    {
        assert(readable(ts@[i as int]));
        let c = ts[i].extract_condition();
        let ghost before = crate::text::views(r@);
        r.push(c);
        proof {
            assert(crate::text::views(r@) =~= before.push(c@));
            assert(crate::text::views(r@) =~= conditions_of(ts@).take(i + 1));
        }
        i = i + 1;
    }
    proof {
        assert(conditions_of(ts@).take(i as int) =~= conditions_of(ts@));
    }
    r
}

/// The pattern of the skipped tasks at positions `ps`.
fn pattern_for(ts: &Vec<SkippedTask>, condition: String, ps: &Vec<usize>) -> (p: SkipPattern)
    requires
        forall|j: int| 0 <= j < ps@.len() ==> #[trigger] ps@[j] < ts@.len(),
    ensures
        pattern_view(p) == pattern_of(ts@, (condition@, ps@.map_values(|x: usize| x as int))),
{
    let mut tasks: Vec<(String, String)> = Vec::new();
    let mut j: usize = 0;
    let ghost g = ps@.map_values(|x: usize| x as int);
    while j < ps.len()
        invariant
            j <= ps.len(),
            g == ps@.map_values(|x: usize| x as int),
            forall|q: int| 0 <= q < ps@.len() ==> #[trigger] ps@[q] < ts@.len(),
            pair_views(tasks@) == g.map_values(|p: int| pair_of(ts@[p])).take(j as int),
        decreases ps.len() - j,
    {
        let t = &ts[ps[j]];
        let ghost before = pair_views(tasks@);
        tasks.push((t.task_name.clone(), t.host.clone()));
        proof {
            assert(pair_views(tasks@) =~= before.push(pair_of(*t)));
            assert(pair_views(tasks@) =~= g.map_values(|p: int| pair_of(ts@[p])).take(j + 1));
        }
        j = j + 1;
    }
    proof {
        assert(g.map_values(|p: int| pair_of(ts@[p])).take(j as int) =~= g.map_values(|p: int| pair_of(ts@[p])));
    }
    SkipPattern { condition, count: ps.len(), tasks }
}

/// The skipped tasks grouped by condition, in order of first appearance.
pub fn collect_patterns(ts: &Vec<SkippedTask>) -> (r: Vec<SkipPattern>)
    requires
        forall|i: int| 0 <= i < ts@.len() ==> readable(#[trigger] ts@[i]),
    ensures
        pattern_views(r@) == grouped_patterns(ts@),
{
    let conds = conditions(ts);
    let groups = group_positions(&conds);
    let ghost gs = groups_of(conditions_of(ts@));
    let mut r: Vec<SkipPattern> = Vec::new();
    let mut i: usize = 0;
    while i < groups.len()
        invariant
            i <= groups.len(),
            group_views(groups@) == gs,
            gs == groups_of(conditions_of(ts@)),
            conds@.len() == ts@.len(),
            pattern_views(r@) == gs.map_values(|g: GroupView| pattern_of(ts@, g)).take(i as int),
        decreases groups.len() - i,
    {
        let ghost gv = gs[i as int];
        proof {
            assert(group_views(groups@)[i as int] == gv);
            let k = gv.0;
            lemma_positions(conditions_of(ts@), k);
            assert(gv.1 == positions_of(conditions_of(ts@), k));
            assert forall|j: int| 0 <= j < groups@[i as int].1@.len() implies #[trigger] groups@[i as int].1@[j]
                < ts@.len() by {
                assert(gv.1[j] == groups@[i as int].1@[j] as int);
            }
        }
        let p = pattern_for(ts, groups[i].0.clone(), &groups[i].1);
        let ghost before = pattern_views(r@);
        r.push(p);
        proof {
            assert(pattern_views(r@) =~= before.push(pattern_view(p)));
            assert(pattern_views(r@) =~= gs.map_values(|g: GroupView| pattern_of(ts@, g)).take(i + 1));
        }
        i = i + 1;
    }
    proof {
        assert(gs.map_values(|g: GroupView| pattern_of(ts@, g)).take(i as int) =~= gs.map_values(
            |g: GroupView| pattern_of(ts@, g),
        ));
    }
    r
}

/// The first pattern with the most skips.
fn first_max_count(v: &Vec<SkipPattern>) -> (b: usize)
    requires
        v@.len() > 0,
    ensures
        is_first_min(pattern_views(v@), by_count_desc(), b as int),
{
    let ghost vs = pattern_views(v@);
    let mut b: usize = 0;
    let mut i: usize = 1;
    while i < v.len()
        invariant
            vs == pattern_views(v@),
            0 <= b < i <= v@.len(),
            forall|j: int| 0 <= j < i ==> #[trigger] by_count_desc()(vs[b as int], vs[j]),
            forall|j: int| 0 <= j < b ==> !#[trigger] by_count_desc()(vs[j], vs[b as int]),
        decreases v.len() - i,
    {
        if v[i].count > v[b].count {
            proof {
                assert forall|j: int| 0 <= j < i implies !#[trigger] by_count_desc()(vs[j], vs[i as int]) by {
                    assert(by_count_desc()(vs[b as int], vs[j]));
                }
                assert forall|j: int| 0 <= j < i + 1 implies #[trigger] by_count_desc()(vs[i as int], vs[j]) by {
                    if j < i {
                        assert(by_count_desc()(vs[b as int], vs[j]));
                    }
                }
            }
            b = i;
        }
        i = i + 1;
    }
    b
}

/// Patterns with more skips first, equal counts keeping their order.
pub fn sort_patterns(v: Vec<SkipPattern>) -> (r: Vec<SkipPattern>)
    ensures
        pattern_views(r@) == stable_sort(pattern_views(v@), by_count_desc()),
{
    let ghost target = stable_sort(pattern_views(v@), by_count_desc());
    let mut rest = v;
    let mut out: Vec<SkipPattern> = Vec::new();
    while rest.len() > 0
        invariant
            pattern_views(out@) + stable_sort(pattern_views(rest@), by_count_desc()) == target,
        decreases rest.len(),
    {
        let b = first_max_count(&rest);
        let ghost before = pattern_views(rest@);
        proof {
            lemma_stable_sort_step(before, by_count_desc(), b as int);
        }
        let x = rest.remove(b);
        let ghost ob = pattern_views(out@);
        out.push(x);
        proof {
            assert(pattern_views(rest@) =~= before.remove(b as int));
            assert(pattern_views(out@) =~= ob.push(before[b as int]));
            assert(pattern_views(out@) + stable_sort(pattern_views(rest@), by_count_desc()) =~= ob + (seq![
                before[b as int],
            ] + stable_sort(before.remove(b as int), by_count_desc())));
        }
    }
    proof {
        assert(pattern_views(rest@) =~= Seq::<PatternView>::empty());
        assert(pattern_views(out@) + Seq::<PatternView>::empty() =~= pattern_views(out@));
    }
    out
}


// ---------------------------------------------------------------------------
// Inline output
// ---------------------------------------------------------------------------

/// Italic text in the default colour.
pub open spec fn italic_style() -> Style {
    Style { color: Color::Default, bold: false, dimmed: false, italic: true }
}

/// The first line of a skip: `SKIPPED: host | task`.
pub open spec fn skip_head(host: Seq<char>, task: Seq<char>) -> Seq<SpanView> {
    seq![
        ("SKIPPED"@, bold_style(Color::Cyan)),
        (": "@, plain_style()),
        (host, bold_style(Color::BrightWhite)),
        (" | "@, plain_style()),
        (task, color_style(Color::Yellow)),
    ]
}

/// An indented `Label: value` line.
pub open spec fn labeled(label: Seq<char>, value: Seq<char>, style: Style) -> Seq<SpanView> {
    seq![("  "@, plain_style()), (label, color_style(Color::BrightBlack)), (": "@, plain_style()), (value, style)]
}

/// The line that opens the recorded variables.
pub open spec fn variables_header() -> Seq<SpanView> {
    seq![("  "@, plain_style()), ("Variables"@, color_style(Color::BrightBlack)), (":"@, plain_style())]
}

/// One recorded variable: `name = value`.
pub open spec fn var_line(name: Seq<char>, value: Seq<char>) -> Seq<SpanView> {
    seq![("    "@, plain_style()), (name, color_style(Color::Green)), (" = "@, plain_style()), (value, color_style(Color::Yellow))]
}

/// The recorded variables, in the order they were recorded.
pub open spec fn var_lines(names: Seq<Seq<char>>, m: Map<Seq<char>, String>) -> Seq<Seq<SpanView>> {
    Seq::new(names.len(), |i: int| var_line(names[i], m[names[i]]@))
}

/// The lines shown for a skip: the head; the condition where it is known
/// and shown; the reason unless quiet; the variables where there are some
/// and they are shown.
pub open spec fn inline_lines(c: FullSkipConfig, t: SkippedTask) -> Seq<Seq<SpanView>> {
    seq![skip_head(t.host@, t.task_name@)] + (match t.when_condition {
        Some(cond) => if c.show_condition_expression {
            seq![labeled("Condition"@, cond@, color_style(Color::BrightCyan))]
        } else {
            Seq::empty()
        },
        None => Seq::empty(),
    }) + (if c.verbosity > 0 {
        seq![labeled("Reason"@, t.skip_reason@, italic_style())]
    } else {
        Seq::empty()
    }) + (if c.show_variable_values && t.variable_context.names().len() > 0 {
        seq![variables_header()] + var_lines(t.variable_context.names(), t.variable_context@)
    } else {
        Seq::empty()
    })
}

fn labeled_line(label: &str, value: &str, style: Style) -> (l: Vec<Span>)
    ensures
        line_view(l@) == labeled(label@, value@, style),
{
    let mut l = Vec::new();
    push_span(&mut l, "  ", Style::plain());
    push_span(&mut l, label, Style::fg(Color::BrightBlack));
    push_span(&mut l, ": ", Style::plain());
    push_span(&mut l, value, style);
    proof {
        assert(line_view(l@) =~= labeled(label@, value@, style));
    }
    l
}

/// The lines shown for a skip.
pub fn format_skip_inline(config: &FullSkipConfig, task: &SkippedTask) -> (r: Vec<Vec<Span>>)
    requires
        task.variable_context.wf(),
    ensures
        lines_view(r@) == inline_lines(*config, *task),
{
    let mut r: Vec<Vec<Span>> = Vec::new();
    let mut head = Vec::new();
    push_span(&mut head, "SKIPPED", Style::bold(Color::Cyan));
    push_span(&mut head, ": ", Style::plain());
    push_span(&mut head, task.host.as_str(), Style::bold(Color::BrightWhite));
    push_span(&mut head, " | ", Style::plain());
    push_span(&mut head, task.task_name.as_str(), Style::fg(Color::Yellow));
    proof {
        assert(line_view(head@) =~= skip_head(task.host@, task.task_name@));
    }
    push_line(&mut r, head);
    let ghost a = lines_view(r@);
    match &task.when_condition {
        Some(cond) => {
            if config.show_condition_expression {
                push_line(&mut r, labeled_line("Condition", cond.as_str(), Style::fg(Color::BrightCyan)));
            }
        },
        None => {},
    }
    let ghost b = lines_view(r@);
    if config.verbosity > 0 {
        let italic = Style { color: Color::Default, bold: false, dimmed: false, italic: true };
        push_line(&mut r, labeled_line("Reason", task.skip_reason.as_str(), italic));
    }
    let ghost c = lines_view(r@);
    let vars = &task.variable_context;
    let n = vars.len();
    if config.show_variable_values && n > 0 {
        let mut h = Vec::new();
        push_span(&mut h, "  ", Style::plain());
        push_span(&mut h, "Variables", Style::fg(Color::BrightBlack));
        push_span(&mut h, ":", Style::plain());
        proof {
            assert(line_view(h@) =~= variables_header());
        }
        push_line(&mut r, h);
        let ghost d = lines_view(r@);
        let mut i: usize = 0;
        while i < n
            invariant
                i <= n,
                n == vars.names().len(),
                vars.wf(),
                lines_view(r@) == d + var_lines(vars.names(), vars@).take(i as int),
            decreases n - i,
        {
            let (name, value) = vars.entry_ref(i);
            let mut l = Vec::new();
            push_span(&mut l, "    ", Style::plain());
            push_span(&mut l, name.as_str(), Style::fg(Color::Green));
            push_span(&mut l, " = ", Style::plain());
            push_span(&mut l, value.as_str(), Style::fg(Color::Yellow));
            proof {
                assert(line_view(l@) =~= var_line(vars.names()[i as int], vars@[vars.names()[i as int]]@));
            }
            push_line(&mut r, l);
            proof {
                assert(var_lines(vars.names(), vars@).take(i + 1) =~= var_lines(vars.names(), vars@).take(
                    i as int,
                ).push(var_line(vars.names()[i as int], vars@[vars.names()[i as int]]@)));
            }
            i = i + 1;
        }
        proof {
            assert(var_lines(vars.names(), vars@).take(i as int) =~= var_lines(vars.names(), vars@));
        }
    }
    proof {
        assert(lines_view(r@) =~= inline_lines(*config, *task));
    }
    r
}

// ---------------------------------------------------------------------------
// Summary
// ---------------------------------------------------------------------------

/// The line shown when nothing was skipped.
pub open spec fn no_skip_line() -> Seq<SpanView> {
    seq![
        ("[FULL_SKIP]"@, bold_style(Color::Cyan)),
        (" No tasks were skipped during playbook execution."@, plain_style()),
    ]
}

/// The summary's title line.
pub open spec fn summary_header() -> Seq<SpanView> {
    seq![
        ("=== SKIP SUMMARY ==="@, bold_style(Color::BrightCyan)),
        (" "@, plain_style()),
        (repeat_char('=', 50), color_style(Color::BrightBlack)),
    ]
}

/// The totals: skipped tasks, affected hosts, the share of skips (as
/// `pct`) and all finished tasks.
pub open spec fn totals_line(skipped: nat, hosts: nat, pct: Seq<char>, total: nat) -> Seq<SpanView> {
    seq![
        ("Total skipped"@, bold_style(Color::BrightWhite)),
        (": "@, plain_style()),
        (dec(skipped), bold_style(Color::Cyan)),
        (" tasks across "@, plain_style()),
        (dec(hosts), color_style(Color::Yellow)),
        (" hosts ("@ + pct + "% of "@ + dec(total) + " total tasks)"@, plain_style()),
    ]
}

/// The title of a pattern: its condition and how often it occurred.
pub open spec fn pattern_title(p: PatternView) -> Seq<SpanView> {
    seq![
        ("  "@, plain_style()),
        (p.0, color_style(Color::BrightCyan)),
        (" ("@ + dec(p.1) + " occurrence"@ + (if p.1 == 1 { Seq::<char>::empty() } else { "s"@ }) + ")"@, plain_style()),
    ]
}

/// Hosts joined by commas; past `max` of them, the rest counted.
pub open spec fn hosts_display(hs: Seq<Seq<char>>, max: nat) -> Seq<char> {
    if hs.len() > max {
        join_seq(hs.take(max as int), ", "@) + " +"@ + dec((hs.len() - max) as nat) + " more"@
    } else {
        join_seq(hs, ", "@)
    }
}

/// A task of a pattern and its hosts.
pub open spec fn task_line(task: Seq<char>, hosts: Seq<char>) -> Seq<SpanView> {
    seq![
        ("    "@, plain_style()),
        ("-"@, color_style(Color::BrightBlack)),
        (" "@, plain_style()),
        (task, color_style(Color::Yellow)),
        (" ("@, plain_style()),
        (hosts, color_style(Color::BrightWhite)),
        (")"@, plain_style()),
    ]
}

/// The task names of pairs.
pub open spec fn task_names(ps: Seq<PairView>) -> Seq<Seq<char>> {
    Seq::new(ps.len(), |i: int| ps[i].0)
}

/// The hosts of the pairs at positions `pos`.
pub open spec fn hosts_at(ps: Seq<PairView>, pos: Seq<int>) -> Seq<Seq<char>> {
    pos.map_values(|q: int| ps[q].1)
}

/// A line per task of a pattern, tasks in order of first appearance.
pub open spec fn task_lines(ps: Seq<PairView>, max: nat) -> Seq<Seq<SpanView>> {
    groups_of(task_names(ps)).map_values(|g: GroupView| task_line(g.0, hosts_display(hosts_at(ps, g.1), max)))
}

/// The lines of one pattern.
pub open spec fn pattern_block(p: PatternView, max: nat) -> Seq<Seq<SpanView>> {
    seq![Seq::empty(), pattern_title(p)] + task_lines(p.2, max)
}

/// The patterns part of the summary: the first ten patterns, and how many
/// more there are.
pub open spec fn patterns_section(ps: Seq<PatternView>, max: nat) -> Seq<Seq<SpanView>> {
    if ps.len() == 0 {
        Seq::empty()
    } else {
        let shown: nat = if ps.len() > 10 { 10 } else { ps.len() };
        seq![Seq::empty(), seq![("Skip Patterns:"@, bold_style(Color::BrightWhite))]] + Seq::new(
            shown,
            |i: int| pattern_block(ps[i], max),
        ).flatten() + (if ps.len() > 10 {
            seq![
                Seq::empty(),
                seq![
                    ("  "@, plain_style()),
                    (dec((ps.len() - 10) as nat), color_style(Color::BrightBlack)),
                    (" more skip patterns..."@, plain_style()),
                ],
            ]
        } else {
            Seq::empty()
        })
    }
}

/// The summary: a note when nothing was skipped (unless quiet); else the
/// title, the totals and, where skips are grouped, the patterns.
pub open spec fn summary_of(
    c: FullSkipConfig,
    ts: Seq<SkippedTask>,
    hosts: nat,
    total: nat,
    pct: Seq<char>,
) -> Seq<Seq<SpanView>> {
    if ts.len() == 0 {
        if c.verbosity > 0 {
            seq![Seq::empty(), no_skip_line()]
        } else {
            Seq::empty()
        }
    } else {
        seq![Seq::empty(), summary_header(), Seq::empty(), totals_line(ts.len(), hosts, pct, total)] + (
        if c.group_by_condition {
            patterns_section(skip_patterns_of(ts), c.max_hosts_per_condition as nat)
        } else {
            Seq::empty()
        })
    }
}

/// Hosts joined by commas, the rest counted past `max`.
fn hosts_text(hosts: &Vec<String>, max: usize) -> (r: String)
    ensures
        r@ == hosts_display(crate::text::views(hosts@), max as nat),
{
    if hosts.len() > max {
        let mut shown: Vec<String> = Vec::new();
        let mut i: usize = 0;
        while i < max
            invariant
                i <= max < hosts@.len(),
                crate::text::views(shown@) == crate::text::views(hosts@).take(i as int),
            decreases max - i,
        {
            let ghost before = crate::text::views(shown@);
            shown.push(hosts[i].clone());
            proof {
                assert(crate::text::views(shown@) =~= before.push(hosts@[i as int]@));
                assert(crate::text::views(shown@) =~= crate::text::views(hosts@).take(i + 1));
            }
            i = i + 1;
        }
        let mut r = join_strings(&shown, ", ");
        push_str(&mut r, " +");
        push_str(&mut r, dec_string((hosts.len() - max) as u64).as_str());
        push_str(&mut r, " more");
        r
    } else {
        join_strings(hosts, ", ")
    }
}

/// A line per task of a pattern.
fn task_lines_of(tasks: &Vec<(String, String)>, max: usize) -> (r: Vec<Vec<Span>>)
    ensures
        lines_view(r@) == task_lines(pair_views(tasks@), max as nat),
{
    let ghost ps = pair_views(tasks@);
    let mut names: Vec<String> = Vec::new();
    let mut i: usize = 0;
    while i < tasks.len()
        invariant
            i <= tasks.len(),
            ps == pair_views(tasks@),
            crate::text::views(names@) == task_names(ps).take(i as int),
        decreases tasks.len() - i,
    {
        let ghost before = crate::text::views(names@);
        names.push(tasks[i].0.clone());
        proof {
            assert(crate::text::views(names@) =~= before.push(tasks@[i as int].0@));
            assert(crate::text::views(names@) =~= task_names(ps).take(i + 1));
        }
        i = i + 1;
    }
    proof {
        assert(task_names(ps).take(i as int) =~= task_names(ps));
    }
    let groups = group_positions(&names);
    let ghost gs = groups_of(task_names(ps));
    let mut r: Vec<Vec<Span>> = Vec::new();
    let mut g: usize = 0;
    while g < groups.len()
        invariant
            g <= groups.len(),
            ps == pair_views(tasks@),
            group_views(groups@) == gs,
            gs == groups_of(task_names(ps)),
            lines_view(r@) == task_lines(ps, max as nat).take(g as int),
        decreases groups.len() - g,
    {
        let ghost gv = gs[g as int];
        proof {
            assert(group_views(groups@)[g as int] == gv);
            lemma_positions(task_names(ps), gv.0);
            assert(gv.1 == positions_of(task_names(ps), gv.0));
        }
        let pos = &groups[g].1;
        let mut hosts: Vec<String> = Vec::new();
        let mut j: usize = 0;
        while j < pos.len()
            invariant
                j <= pos.len(),
                ps == pair_views(tasks@),
                gv.1 == pos@.map_values(|x: usize| x as int),
                forall|q: int| 0 <= q < gv.1.len() ==> 0 <= #[trigger] gv.1[q] < task_names(ps).len(),
                crate::text::views(hosts@) == hosts_at(ps, gv.1).take(j as int),
            decreases pos.len() - j,
        {
            assert(gv.1[j as int] == pos@[j as int] as int);
            let k = pos[j];
            let ghost before = crate::text::views(hosts@);
            hosts.push(tasks[k].1.clone());
            proof {
                assert(crate::text::views(hosts@) =~= before.push(tasks@[k as int].1@));
                assert(crate::text::views(hosts@) =~= hosts_at(ps, gv.1).take(j + 1));
            }
            j = j + 1;
        }
        proof {
            assert(hosts_at(ps, gv.1).take(j as int) =~= hosts_at(ps, gv.1));
        }
        let text = hosts_text(&hosts, max);
        let mut l = Vec::new();
        push_span(&mut l, "    ", Style::plain());
        push_span(&mut l, "-", Style::fg(Color::BrightBlack));
        push_span(&mut l, " ", Style::plain());
        push_span(&mut l, groups[g].0.as_str(), Style::fg(Color::Yellow));
        push_span(&mut l, " (", Style::plain());
        push_owned(&mut l, text, Style::fg(Color::BrightWhite));
        push_span(&mut l, ")", Style::plain());
        proof {
            assert(line_view(l@) =~= task_line(gv.0, hosts_display(hosts_at(ps, gv.1), max as nat)));
        }
        push_line(&mut r, l);
        proof {
            assert(lines_view(r@) =~= task_lines(ps, max as nat).take(g + 1));
        }
        g = g + 1;
    }
    proof {
        assert(task_lines(ps, max as nat).take(g as int) =~= task_lines(ps, max as nat));
    }
    r
}

/// The lines of one pattern.
fn pattern_block_lines(p: &SkipPattern, max: usize) -> (r: Vec<Vec<Span>>)
    ensures
        lines_view(r@) == pattern_block(pattern_view(*p), max as nat),
{
    let mut r: Vec<Vec<Span>> = Vec::new();
    push_line(&mut r, blank());
    let mut title = Vec::new();
    push_span(&mut title, "  ", Style::plain());
    push_span(&mut title, p.condition.as_str(), Style::fg(Color::BrightCyan));
    let mut t = String::new();
    push_str(&mut t, " (");
    push_str(&mut t, dec_string(p.count as u64).as_str());
    push_str(&mut t, " occurrence");
    if p.count != 1 {
        push_str(&mut t, "s");
    }
    push_str(&mut t, ")");
    proof {
        let pv = pattern_view(*p);
        assert(t@ =~= " ("@ + dec(pv.1) + " occurrence"@ + (if pv.1 == 1 { Seq::<char>::empty() } else { "s"@ }) + ")"@);
    }
    push_owned(&mut title, t, Style::plain());
    proof {
        assert(line_view(title@) =~= pattern_title(pattern_view(*p)));
    }
    push_line(&mut r, title);
    let tl = task_lines_of(&p.tasks, max);
    append_lines(&mut r, tl);
    proof {
        assert(lines_view(r@) =~= pattern_block(pattern_view(*p), max as nat));
    }
    r
}

/// The patterns part of the summary.
fn patterns_section_lines(ps: &Vec<SkipPattern>, max: usize) -> (r: Vec<Vec<Span>>)
    ensures
        lines_view(r@) == patterns_section(pattern_views(ps@), max as nat),
{
    let mut r: Vec<Vec<Span>> = Vec::new();
    if ps.len() == 0 {
        proof {
            assert(lines_view(r@) =~= Seq::<Seq<SpanView>>::empty());
        }
        return r;
    }
    let ghost pv = pattern_views(ps@);
    push_line(&mut r, blank());
    let mut title = Vec::new();
    push_span(&mut title, "Skip Patterns:", Style::bold(Color::BrightWhite));
    proof {
        assert(line_view(title@) =~= seq![("Skip Patterns:"@, bold_style(Color::BrightWhite))]);
    }
    push_line(&mut r, title);
    let ghost start = lines_view(r@);
    let shown: usize = if ps.len() > 10 { 10 } else { ps.len() };
    let ghost blocks = Seq::new(shown as nat, |i: int| pattern_block(pv[i], max as nat));
    let mut i: usize = 0;
    while i < shown
        invariant
            i <= shown <= ps.len(),
            pv == pattern_views(ps@),
            blocks == Seq::new(shown as nat, |i: int| pattern_block(pv[i], max as nat)),
            lines_view(r@) == start + blocks.take(i as int).flatten(),
        decreases shown - i,
    {
        let b = pattern_block_lines(&ps[i], max);
        append_lines(&mut r, b);
        proof {
            assert(blocks.take(i + 1) =~= blocks.take(i as int).push(blocks[i as int]));
            blocks.take(i as int).lemma_flatten_push(blocks[i as int]);
            assert(lines_view(r@) =~= start + blocks.take(i + 1).flatten());
        }
        i = i + 1;
    }
    proof {
        assert(blocks.take(i as int) =~= blocks);
    }
    let ghost mid = lines_view(r@);
    let ghost tail: Seq<Seq<SpanView>> = if ps.len() > 10 {
        seq![
            Seq::empty(),
            seq![
                ("  "@, plain_style()),
                (dec((pv.len() - 10) as nat), color_style(Color::BrightBlack)),
                (" more skip patterns..."@, plain_style()),
            ],
        ]
    } else {
        Seq::empty()
    };
    if ps.len() > 10 {
        push_line(&mut r, blank());
        let mut l = Vec::new();
        push_span(&mut l, "  ", Style::plain());
        push_owned(&mut l, dec_string((ps.len() - 10) as u64), Style::fg(Color::BrightBlack));
        push_span(&mut l, " more skip patterns...", Style::plain());
        proof {
            assert(line_view(l@) =~= tail[1]);
        }
        push_line(&mut r, l);
    }
    proof {
        assert(lines_view(r@) =~= mid + tail);
        assert(start =~= seq![Seq::empty(), seq![("Skip Patterns:"@, bold_style(Color::BrightWhite))]]);
        assert(lines_view(r@) =~= patterns_section(pv, max as nat));
    }
    r
}

// ---------------------------------------------------------------------------
// The callback
// ---------------------------------------------------------------------------

/// One more, wrapping around at the top of `u64`.
pub open spec fn wrap_inc64(x: u64) -> u64 {
    if x == u64::MAX {
        0
    } else {
        (x + 1) as u64
    }
}

fn inc64(x: u64) -> (r: u64)
    ensures
        r == wrap_inc64(x),
{
    if x == u64::MAX {
        0
    } else {
        x + 1
    }
}

/// The counts of a host before it has any.
pub open spec fn total_of(m: Map<Seq<char>, HostSkipStats>, h: Seq<char>) -> u32 {
    if m.contains_key(h) {
        m[h].total_tasks
    } else {
        0
    }
}

/// The skipped tasks of a host, zero where it has none.
pub open spec fn skipped_of(m: Map<Seq<char>, HostSkipStats>, h: Seq<char>) -> u32 {
    if m.contains_key(h) {
        m[h].skipped_tasks
    } else {
        0
    }
}

/// The skips per condition of a host, none where it has no counts.
pub open spec fn conditions_at(m: Map<Seq<char>, HostSkipStats>, h: Seq<char>) -> Map<Seq<char>, u32> {
    if m.contains_key(h) {
        m[h].skip_conditions@
    } else {
        Map::empty()
    }
}

/// One more skip for condition `c`.
pub open spec fn count_condition(m: Map<Seq<char>, u32>, c: Seq<char>) -> Map<Seq<char>, u32> {
    m.insert(c, wrap_inc(if m.contains_key(c) { m[c] } else { 0 }))
}

/// Callback that records every skipped task with its reason.
#[derive(Debug)]
pub struct FullSkipCallback {
    config: FullSkipConfig,
    skipped_tasks: Vec<SkippedTask>,
    host_stats: HostTable<HostSkipStats>,
    current_playbook: Option<String>,
    task_counter: u64,
    total_tasks: u64,
}

impl FullSkipCallback {
    /// The tables are well formed.
    pub closed spec fn wf(&self) -> bool {
        &&& self.host_stats.wf()
        &&& forall|h: Seq<char>| #[trigger] self.host_stats@.contains_key(h) ==> self.host_stats@[h].skip_conditions.wf()
    }

    /// The settings.
    pub closed spec fn spec_config(&self) -> FullSkipConfig {
        self.config
    }

    /// The skipped tasks, in the order they were skipped.
    pub closed spec fn skipped(&self) -> Seq<SkippedTask> {
        self.skipped_tasks@
    }

    /// The counts per host.
    pub closed spec fn stats(&self) -> Map<Seq<char>, HostSkipStats> {
        self.host_stats@
    }

    /// The hosts with counts, in the order they were first seen.
    pub closed spec fn host_order(&self) -> Seq<Seq<char>> {
        self.host_stats.names()
    }

    /// Tasks finished in the run.
    pub closed spec fn total(&self) -> u64 {
        self.total_tasks
    }

    /// Skips numbered so far.
    pub closed spec fn counter(&self) -> u64 {
        self.task_counter
    }

    /// The running playbook's name.
    pub closed spec fn playbook(&self) -> Option<Seq<char>> {
        opt_chars(self.current_playbook)
    }

    /// A callback with default settings.
    pub fn new() -> (c: Self)
        ensures
            c.wf(),
            c.spec_config() == default_full_skip_config(),
            c.skipped().len() == 0,
            c.stats() == Map::<Seq<char>, HostSkipStats>::empty(),
            c.host_order().len() == 0,
            c.total() == 0,
            c.counter() == 0,
            c.playbook().is_none(),
    {
        Self::with_config(FullSkipConfig::default())
    }

    /// A callback with the given settings.
    pub fn with_config(config: FullSkipConfig) -> (c: Self)
        ensures
            c.wf(),
            c.spec_config() == config,
            c.skipped().len() == 0,
            c.stats() == Map::<Seq<char>, HostSkipStats>::empty(),
            c.host_order().len() == 0,
            c.total() == 0,
            c.counter() == 0,
            c.playbook().is_none(),
    {
        FullSkipCallback {
            config,
            skipped_tasks: Vec::new(),
            host_stats: HostTable::new(),
            current_playbook: None,
            task_counter: 0,
            total_tasks: 0,
        }
    }

    /// The settings.
    pub fn config(&self) -> (c: &FullSkipConfig)
        ensures
            *c == self.spec_config(),
    {
        &self.config
    }

    /// Forgets everything recorded; the settings stay.
    pub fn reset(&mut self)
        ensures
            final(self).wf(),
            final(self).spec_config() == old(self).spec_config(),
            final(self).skipped().len() == 0,
            final(self).stats() == Map::<Seq<char>, HostSkipStats>::empty(),
            final(self).host_order().len() == 0,
            final(self).total() == 0,
            final(self).counter() == 0,
            final(self).playbook().is_none(),
    {
        self.skipped_tasks = Vec::new();
        self.host_stats = HostTable::new();
        self.current_playbook = None;
        self.task_counter = 0;
        self.total_tasks = 0;
    }

    /// The skipped tasks, in the order they were skipped.
    pub fn get_skipped_tasks(&self) -> (r: &Vec<SkippedTask>)
        ensures
            r@ == self.skipped(),
    {
        &self.skipped_tasks
    }

    /// The number of skipped tasks.
    pub fn skip_count(&self) -> (n: usize)
        ensures
            n == self.skipped().len(),
    {
        self.skipped_tasks.len()
    }

    /// The number of finished tasks.
    pub fn total_count(&self) -> (n: u64)
        ensures
            n == self.total(),
    {
        self.total_tasks
    }

    /// The counts of `host`, if it has any.
    pub fn host_stats(&self, host: &str) -> (r: Option<&HostSkipStats>)
        requires
            self.wf(),
        ensures
            r.is_some() == self.stats().contains_key(host@),
            r.is_some() ==> *r.unwrap() == self.stats()[host@],
    {
        self.host_stats.get_ref(host)
    }

    /// The skip patterns: the skips grouped by condition, more skips first.
    /// Whether the condition of every recorded skip can be read.
    pub fn all_readable(&self) -> (b: bool)
        ensures
            b == forall|i: int| 0 <= i < self.skipped().len() ==> readable(#[trigger] self.skipped()[i]),
    {
        let mut i: usize = 0;
        while i < self.skipped_tasks.len()
            invariant
                i <= self.skipped_tasks@.len(),
                forall|j: int| 0 <= j < i ==> readable(#[trigger] self.skipped_tasks@[j]),
            decreases self.skipped_tasks@.len() - i,
        {
            if !self.skipped_tasks[i].is_readable() {
                proof {
                    assert(!readable(self.skipped()[i as int]));
                }
                return false;
            }
            i = i + 1;
        }
        true
    }

    pub fn get_skip_patterns(&self) -> (r: Vec<SkipPattern>)
        requires
            forall|i: int| 0 <= i < self.skipped().len() ==> readable(#[trigger] self.skipped()[i]),
        ensures
            pattern_views(r@) == skip_patterns_of(self.skipped()),
    {
        proof {
            assert forall|i: int| 0 <= i < self.skipped_tasks@.len() implies readable(
                #[trigger] self.skipped_tasks@[i],
            ) by {
                assert(readable(self.skipped()[i]));
            }
        }
        sort_patterns(collect_patterns(&self.skipped_tasks))
    }

    /// The hosts with at least one skip, in the order they were first seen.
    pub fn get_affected_hosts(&self) -> (r: Vec<String>)
        requires
            self.wf(),
        ensures
            crate::text::views(r@) == self.host_order().filter(|h: Seq<char>| self.stats()[h].skipped_tasks > 0),
    {
        let ghost names = self.host_stats.names();
        let ghost f = |h: Seq<char>| self.stats()[h].skipped_tasks > 0;
        let n = self.host_stats.len();
        let mut r: Vec<String> = Vec::new();
        let mut i: usize = 0;
        while i < n
            invariant
                i <= n,
                n == names.len(),
                names == self.host_stats.names(),
                self.host_stats.wf(),
                f == (|h: Seq<char>| self.stats()[h].skipped_tasks > 0),
                crate::text::views(r@) == names.take(i as int).filter(f),
            decreases n - i,
        {
            let (h, s) = self.host_stats.entry_ref(i);
            let ghost before = crate::text::views(r@);
            proof {
                assert(names.take(i + 1).drop_last() =~= names.take(i as int));
                assert(names.take(i + 1).last() == h@);
            }
            proof {
                assert(f(h@) == (s.skipped_tasks > 0));
                reveal(Seq::filter);
                assert(names.take(i + 1).filter(f) == if f(h@) {
                    names.take(i as int).filter(f).push(h@)
                } else {
                    names.take(i as int).filter(f)
                });
            }
            if s.skipped_tasks > 0 {
                r.push(h.clone());
                proof {
                    assert(crate::text::views(r@) =~= before.push(h@));
                }
            }
            i = i + 1;
        }
        proof {
            assert(names.take(i as int) =~= names);
        }
        r
    }

    /// A playbook starts: everything recorded is forgotten; unless quiet, a
    /// line says that skips are tracked.
    pub fn on_playbook_start(&mut self, name: &str) -> (r: Vec<Vec<Span>>)
        ensures
            final(self).wf(),
            final(self).spec_config() == old(self).spec_config(),
            final(self).skipped().len() == 0,
            final(self).stats() == Map::<Seq<char>, HostSkipStats>::empty(),
            final(self).host_order().len() == 0,
            final(self).total() == 0,
            final(self).counter() == 0,
            final(self).playbook() == Some(name@),
            lines_view(r@) == if old(self).spec_config().verbosity > 0 {
                seq![
                    seq![
                        ("[FULL_SKIP]"@, bold_style(Color::Cyan)),
                        (" Skip tracking enabled for playbook: "@, plain_style()),
                        (name@, color_style(Color::BrightWhite)),
                    ],
                ]
            } else {
                Seq::empty()
            },
    {
        self.reset();
        self.current_playbook = Some(name.to_owned());
        let mut r: Vec<Vec<Span>> = Vec::new();
        if self.config.verbosity > 0 {
            let mut l = Vec::new();
            push_span(&mut l, "[FULL_SKIP]", Style::bold(Color::Cyan));
            push_span(&mut l, " Skip tracking enabled for playbook: ", Style::plain());
            push_span(&mut l, name, Style::fg(Color::BrightWhite));
            proof {
                assert(line_view(l@) =~= seq![
                    ("[FULL_SKIP]"@, bold_style(Color::Cyan)),
                    (" Skip tracking enabled for playbook: "@, plain_style()),
                    (name@, color_style(Color::BrightWhite)),
                ]);
            }
            push_line(&mut r, l);
        }
        proof {
            assert(lines_view(r@) =~= if old(self).spec_config().verbosity > 0 {
                seq![
                    seq![
                        ("[FULL_SKIP]"@, bold_style(Color::Cyan)),
                        (" Skip tracking enabled for playbook: "@, plain_style()),
                        (name@, color_style(Color::BrightWhite)),
                    ],
                ]
            } else {
                Seq::empty()
            });
        }
        r
    }

    /// A play starts: its hosts get empty counts where they have none.
    pub fn on_play_start(&mut self, name: &str, hosts: &Vec<String>)
        requires
            old(self).wf(),
        ensures
            final(self).wf(),
            final(self).spec_config() == old(self).spec_config(),
            final(self).skipped() == old(self).skipped(),
            final(self).total() == old(self).total(),
            final(self).counter() == old(self).counter(),
            final(self).playbook() == old(self).playbook(),
            forall|h: Seq<char>| #[trigger] final(self).stats().contains_key(h) <==> (old(self).stats().contains_key(h)
                || crate::text::views(hosts@).contains(h)),
            forall|h: Seq<char>| #[trigger] final(self).stats().contains_key(h) ==> {
                &&& final(self).stats()[h].total_tasks == total_of(old(self).stats(), h)
                &&& final(self).stats()[h].skipped_tasks == skipped_of(old(self).stats(), h)
                &&& final(self).stats()[h].skip_conditions@ == conditions_at(old(self).stats(), h)
            },
    {
        let mut i: usize = 0;
        while i < hosts.len()
            invariant
                i <= hosts.len(),
                self.wf(),
                self.config == old(self).config,
                self.skipped_tasks@ == old(self).skipped_tasks@,
                self.total_tasks == old(self).total_tasks,
                self.task_counter == old(self).task_counter,
                self.current_playbook == old(self).current_playbook,
                forall|h: Seq<char>| #[trigger] self.host_stats@.contains_key(h) <==> (old(self).host_stats@.contains_key(h)
                    || crate::text::views(hosts@).take(i as int).contains(h)),
                forall|h: Seq<char>| #[trigger] self.host_stats@.contains_key(h) ==> {
                    &&& self.host_stats@[h].total_tasks == total_of(old(self).host_stats@, h)
                    &&& self.host_stats@[h].skipped_tasks == skipped_of(old(self).host_stats@, h)
                    &&& self.host_stats@[h].skip_conditions@ == conditions_at(old(self).host_stats@, h)
                },
            decreases hosts.len() - i,
        {
            let ghost hv = crate::text::views(hosts@);
            let ghost now = hv.take(i + 1);
            let ghost before = hv.take(i as int);
            proof {
                assert(hv.take(i + 1) =~= hv.take(i as int).push(hosts@[i as int]@));
                assert forall|h: Seq<char>| hv.take(i + 1).contains(h) <==> (hv.take(i as int).contains(h) || h
                    == hosts@[i as int]@) by {
                    if hv.take(i + 1).contains(h) {
                        let q = choose|q: int| 0 <= q < now.len() && now[q] == h;
                        if q < i {
                            assert(hv.take(i as int)[q] == h);
                        }
                    }
                    if hv.take(i as int).contains(h) {
                        let q = choose|q: int| 0 <= q < before.len() && before[q] == h;
                        assert(hv.take(i + 1)[q] == h);
                    }
                    if h == hosts@[i as int]@ {
                        assert(hv.take(i + 1)[i as int] == h);
                    }
                }
            }
            self.host_stats.ensure(hosts[i].as_str(), HostSkipStats::default());
            i = i + 1;
        }
        proof {
            assert(crate::text::views(hosts@).take(i as int) =~= crate::text::views(hosts@));
        }
    }

    /// A play ends: nothing to do.
    pub fn on_play_end(&self, name: &str, success: bool) {
    }

    /// A task starts: nothing to do.
    pub fn on_task_start(&self, name: &str, host: &str) {
    }

    /// A handler runs: nothing to do.
    pub fn on_handler_triggered(&self, name: &str) {
    }

    /// A task finished. Every task is counted for its host; a skipped one is
    /// numbered, its message read as a condition and a reason, its condition
    /// counted for the host, and it is recorded; the lines shown for it come
    /// back when skips are shown as they happen.
    pub fn on_task_complete(&mut self, result: &ExecutionResult, now: Elapsed) -> (r: Vec<Vec<Span>>)
        requires
            old(self).wf(),
        ensures
            final(self).wf(),
            final(self).spec_config() == old(self).spec_config(),
            final(self).playbook() == old(self).playbook(),
            final(self).total() == wrap_inc64(old(self).total()),
            forall|h: Seq<char>| #[trigger] final(self).stats().contains_key(h) <==> (old(self).stats().contains_key(h)
                || h == result.host@),
            forall|h: Seq<char>| old(self).stats().contains_key(h) && h != result.host@ ==> #[trigger] final(self).stats()[h]
                == old(self).stats()[h],
            final(self).stats()[result.host@].total_tasks == wrap_inc(total_of(old(self).stats(), result.host@)),
            final(self).stats()[result.host@].skipped_tasks == if result.result.skipped {
                wrap_inc(skipped_of(old(self).stats(), result.host@))
            } else {
                skipped_of(old(self).stats(), result.host@)
            },
            final(self).stats()[result.host@].skip_conditions@ == match parsed_skip(result.result.message@).0 {
                Some(c) => if result.result.skipped {
                    count_condition(conditions_at(old(self).stats(), result.host@), c)
                } else {
                    conditions_at(old(self).stats(), result.host@)
                },
                None => conditions_at(old(self).stats(), result.host@),
            },
            final(self).host_order() == if old(self).stats().contains_key(result.host@) {
                old(self).host_order()
            } else {
                old(self).host_order().push(result.host@)
            },
            !result.result.skipped ==> {
                &&& final(self).skipped() == old(self).skipped()
                &&& final(self).counter() == old(self).counter()
                &&& r@.len() == 0
            },
            result.result.skipped ==> {
                let t = final(self).skipped().last();
                &&& final(self).skipped().drop_last() == old(self).skipped()
                &&& final(self).skipped().len() == old(self).skipped().len() + 1
                &&& final(self).counter() == wrap_inc64(old(self).counter())
                &&& t.task_name@ == result.task_name@
                &&& t.host@ == result.host@
                &&& (opt_chars(t.when_condition), t.skip_reason@) == parsed_skip(result.result.message@)
                &&& t.variable_context.wf()
                &&& t.variable_context@ == Map::<Seq<char>, String>::empty()
                &&& t.variable_context.names().len() == 0
                &&& t.order == old(self).counter()
                &&& t.timestamp == Some(now)
                &&& lines_view(r@) == if old(self).spec_config().show_inline {
                    inline_lines(old(self).spec_config(), t)
                } else {
                    Seq::empty()
                }
            },
    {
        self.total_tasks = inc64(self.total_tasks);
        let host = result.host.as_str();
        self.host_stats.ensure(host, HostSkipStats::default());
        let skipped = result.result.skipped;
        {
            let hs = self.host_stats.get_mut(host);
            hs.total_tasks = inc(hs.total_tasks);
            if skipped {
                hs.skipped_tasks = inc(hs.skipped_tasks);
            }
        }
        if !skipped {
            return Vec::new();
        }
        let order = self.task_counter;
        self.task_counter = inc64(self.task_counter);
        let (condition, reason) = parse_skip_reason(result.result.message.as_str());
        let mut task = SkippedTask::new(result.task_name.clone(), result.host.clone(), reason, order, now);
        match condition {
            Some(cond) => {
                let hs = self.host_stats.get_mut(host);
                let cur = match hs.skip_conditions.get(cond.as_str()) {
                    Some(n) => n,
                    None => 0,
                };
                hs.skip_conditions.set(cond.as_str(), inc(cur));
                task = task.with_condition(cond);
            },
            None => {},
        }
        let lines = if self.config.show_inline {
            format_skip_inline(&self.config, &task)
        } else {
            Vec::new()
        };
        self.skipped_tasks.push(task);
        lines
    }
}

impl FullSkipCallback {
    /// The summary, with the share of skipped tasks given as `pct_text`.
    pub fn summary_lines(&self, pct_text: &str) -> (r: Vec<Vec<Span>>)
        requires
            self.wf(),
            self.spec_config().group_by_condition ==> forall|i: int|
                0 <= i < self.skipped().len() ==> readable(#[trigger] self.skipped()[i]),
        ensures
            lines_view(r@) == summary_of(
                self.spec_config(),
                self.skipped(),
                self.host_order().filter(|h: Seq<char>| self.stats()[h].skipped_tasks > 0).len(),
                self.total() as nat,
                pct_text@,
            ),
    {
        let mut r: Vec<Vec<Span>> = Vec::new();
        if self.skipped_tasks.len() == 0 {
            if self.config.verbosity > 0 {
                push_line(&mut r, blank());
                let mut l = Vec::new();
                push_span(&mut l, "[FULL_SKIP]", Style::bold(Color::Cyan));
                push_span(&mut l, " No tasks were skipped during playbook execution.", Style::plain());
                proof {
                    assert(line_view(l@) =~= no_skip_line());
                }
                push_line(&mut r, l);
            }
            proof {
                assert(lines_view(r@) =~= summary_of(
                    self.spec_config(),
                    self.skipped(),
                    self.host_order().filter(|h: Seq<char>| self.stats()[h].skipped_tasks > 0).len(),
                    self.total() as nat,
                    pct_text@,
                ));
            }
            return r;
        }
        let affected = self.get_affected_hosts();
        push_line(&mut r, blank());
        let mut h = Vec::new();
        push_span(&mut h, "=== SKIP SUMMARY ===", Style::bold(Color::BrightCyan));
        push_span(&mut h, " ", Style::plain());
        push_owned(&mut h, repeat_string('=', 50), Style::fg(Color::BrightBlack));
        proof {
            assert(line_view(h@) =~= summary_header());
        }
        push_line(&mut r, h);
        push_line(&mut r, blank());
        let mut t = Vec::new();
        push_span(&mut t, "Total skipped", Style::bold(Color::BrightWhite));
        push_span(&mut t, ": ", Style::plain());
        push_owned(&mut t, dec_string(self.skipped_tasks.len() as u64), Style::bold(Color::Cyan));
        push_span(&mut t, " tasks across ", Style::plain());
        push_owned(&mut t, dec_string(affected.len() as u64), Style::fg(Color::Yellow));
        let mut rest = String::new();
        push_str(&mut rest, " hosts (");
        push_str(&mut rest, pct_text);
        push_str(&mut rest, "% of ");
        push_str(&mut rest, dec_string(self.total_tasks).as_str());
        push_str(&mut rest, " total tasks)");
        push_owned(&mut t, rest, Style::plain());
        proof {
            assert(line_view(t@) =~= totals_line(
                self.skipped().len(),
                affected@.len(),
                pct_text@,
                self.total() as nat,
            ));
        }
        push_line(&mut r, t);
        let ghost head = lines_view(r@);
        if self.config.group_by_condition {
            let patterns = self.get_skip_patterns();
            let section = patterns_section_lines(&patterns, self.config.max_hosts_per_condition);
            append_lines(&mut r, section);
        }
        proof {
            assert(crate::text::views(affected@).len() == affected@.len());
            assert(lines_view(r@) =~= summary_of(
                self.spec_config(),
                self.skipped(),
                self.host_order().filter(|h: Seq<char>| self.stats()[h].skipped_tasks > 0).len(),
                self.total() as nat,
                pct_text@,
            ));
        }
        r
    }

    /// A playbook ends: the summary, where it is shown.
    pub fn on_playbook_end(&self, name: &str, success: bool, pct_text: &str) -> (r: Vec<Vec<Span>>)
        requires
            self.wf(),
            self.spec_config().show_summary && self.spec_config().group_by_condition ==> forall|i: int|
                0 <= i < self.skipped().len() ==> readable(#[trigger] self.skipped()[i]),
        ensures
            lines_view(r@) == if self.spec_config().show_summary {
                summary_of(
                    self.spec_config(),
                    self.skipped(),
                    self.host_order().filter(|h: Seq<char>| self.stats()[h].skipped_tasks > 0).len(),
                    self.total() as nat,
                    pct_text@,
                )
            } else {
                Seq::empty()
            },
    {
        if self.config.show_summary {
            self.summary_lines(pct_text)
        } else {
            let r: Vec<Vec<Span>> = Vec::new();
            proof {
                assert(lines_view(r@) =~= Seq::<Seq<SpanView>>::empty());
            }
            r
        }
    }
}

/// A host, its skipped tasks and its finished tasks.
pub type HostRow = (Seq<char>, u32, u32);

/// The rows of the hosts in `order`.
pub open spec fn host_rows(order: Seq<Seq<char>>, m: Map<Seq<char>, HostSkipStats>) -> Seq<HostRow> {
    Seq::new(order.len(), |i: int| (order[i], m[order[i]].skipped_tasks, m[order[i]].total_tasks))
}

/// More skips first.
pub open spec fn by_skipped_desc() -> spec_fn(HostRow, HostRow) -> bool {
    |a: HostRow, b: HostRow| a.1 >= b.1
}

/// The ten hosts with the most skips (equal counts in their order), those
/// with at least one skip.
pub open spec fn top_rows(rs: Seq<HostRow>) -> Seq<HostRow> {
    let sorted = stable_sort(rs, by_skipped_desc());
    let top = if sorted.len() > 10 { sorted.take(10) } else { sorted };
    top.filter(|r: HostRow| r.1 > 0)
}

/// A row, as a value.
pub open spec fn row_view(r: (String, u32, u32)) -> HostRow {
    (r.0@, r.1, r.2)
}

/// Rows, as values.
pub open spec fn row_views(v: Seq<(String, u32, u32)>) -> Seq<HostRow> {
    Seq::new(v.len(), |i: int| row_view(v[i]))
}

fn first_max_row(v: &Vec<(String, u32, u32)>) -> (b: usize)
    requires
        v@.len() > 0,
    ensures
        is_first_min(row_views(v@), by_skipped_desc(), b as int),
{
    let ghost vs = row_views(v@);
    let mut b: usize = 0;
    let mut i: usize = 1;
    while i < v.len()
        invariant
            vs == row_views(v@),
            0 <= b < i <= v@.len(),
            forall|j: int| 0 <= j < i ==> #[trigger] by_skipped_desc()(vs[b as int], vs[j]),
            forall|j: int| 0 <= j < b ==> !#[trigger] by_skipped_desc()(vs[j], vs[b as int]),
        decreases v.len() - i,
    {
        if v[i].1 > v[b].1 {
            proof {
                assert forall|j: int| 0 <= j < i implies !#[trigger] by_skipped_desc()(vs[j], vs[i as int]) by {
                    assert(by_skipped_desc()(vs[b as int], vs[j]));
                }
                assert forall|j: int| 0 <= j < i + 1 implies #[trigger] by_skipped_desc()(vs[i as int], vs[j]) by {
                    if j < i {
                        assert(by_skipped_desc()(vs[b as int], vs[j]));
                    }
                }
            }
            b = i;
        }
        i = i + 1;
    }
    b
}

fn sort_rows(v: Vec<(String, u32, u32)>) -> (r: Vec<(String, u32, u32)>)
    ensures
        row_views(r@) == stable_sort(row_views(v@), by_skipped_desc()),
{
    let ghost target = stable_sort(row_views(v@), by_skipped_desc());
    let mut rest = v;
    let mut out: Vec<(String, u32, u32)> = Vec::new();
    while rest.len() > 0
        invariant
            row_views(out@) + stable_sort(row_views(rest@), by_skipped_desc()) == target,
        decreases rest.len(),
    {
        let b = first_max_row(&rest);
        let ghost before = row_views(rest@);
        proof {
            lemma_stable_sort_step(before, by_skipped_desc(), b as int);
        }
        let x = rest.remove(b);
        let ghost ob = row_views(out@);
        out.push(x);
        proof {
            assert(row_views(rest@) =~= before.remove(b as int));
            assert(row_views(out@) =~= ob.push(before[b as int]));
            assert(row_views(out@) + stable_sort(row_views(rest@), by_skipped_desc()) =~= ob + (seq![
                before[b as int],
            ] + stable_sort(before.remove(b as int), by_skipped_desc())));
        }
    }
    proof {
        assert(row_views(rest@) =~= Seq::<HostRow>::empty());
        assert(row_views(out@) + Seq::<HostRow>::empty() =~= row_views(out@));
    }
    out
}

impl FullSkipCallback {
    /// The per-host skip counts shown in a verbose summary: the ten hosts
    /// with the most skips, those with at least one, as host, skipped and
    /// finished tasks.
    pub fn per_host_rows(&self) -> (r: Vec<(String, u32, u32)>)
        requires
            self.wf(),
        ensures
            row_views(r@) == top_rows(host_rows(self.host_order(), self.stats())),
    {
        let ghost order = self.host_stats.names();
        let n = self.host_stats.len();
        let mut rows: Vec<(String, u32, u32)> = Vec::new();
        let mut i: usize = 0;
        while i < n
            invariant
                i <= n,
                n == order.len(),
                order == self.host_stats.names(),
                self.host_stats.wf(),
                row_views(rows@) == host_rows(order, self.stats()).take(i as int),
            decreases n - i,
        {
            let (h, s) = self.host_stats.entry_ref(i);
            let ghost before = row_views(rows@);
            rows.push((h.clone(), s.skipped_tasks, s.total_tasks));
            proof {
                assert(row_views(rows@) =~= before.push((h@, s.skipped_tasks, s.total_tasks)));
                assert(row_views(rows@) =~= host_rows(order, self.stats()).take(i + 1));
            }
            i = i + 1;
        }
        proof {
            assert(host_rows(order, self.stats()).take(i as int) =~= host_rows(order, self.stats()));
        }
        let sorted = sort_rows(rows);
        let ghost sv = row_views(sorted@);
        let top: usize = if sorted.len() > 10 { 10 } else { sorted.len() };
        let ghost tv = if sv.len() > 10 { sv.take(10) } else { sv };
        let ghost f = |r: HostRow| r.1 > 0;
        let mut out: Vec<(String, u32, u32)> = Vec::new();
        let mut j: usize = 0;
        proof {
            assert(tv.len() == top);
        }
        while j < top
            invariant
                j <= top <= sorted@.len(),
                sv == row_views(sorted@),
                tv == (if sv.len() > 10 { sv.take(10) } else { sv }),
                tv.len() == top,
                f == (|r: HostRow| r.1 > 0),
                row_views(out@) == tv.take(j as int).filter(f),
            decreases top - j,
        {
            let ghost before = row_views(out@);
            proof {
                reveal(Seq::filter);
                assert(tv.take(j + 1).drop_last() =~= tv.take(j as int));
                assert(tv.take(j + 1).last() == row_view(sorted@[j as int]));
                assert(tv.take(j + 1).filter(f) == if f(row_view(sorted@[j as int])) {
                    tv.take(j as int).filter(f).push(row_view(sorted@[j as int]))
                } else {
                    tv.take(j as int).filter(f)
                });
            }
            if sorted[j].1 > 0 {
                out.push((sorted[j].0.clone(), sorted[j].1, sorted[j].2));
                proof {
                    assert(row_views(out@) =~= before.push(row_view(sorted@[j as int])));
                }
            }
            j = j + 1;
        }
        proof {
            assert(tv.take(j as int) =~= tv);
        }
        out
    }
}

impl Default for FullSkipCallback {
    fn default() -> (c: Self)
        ensures
            c.wf(),
            c.spec_config() == default_full_skip_config(),
            c.skipped().len() == 0,
            c.stats() == Map::<Seq<char>, HostSkipStats>::empty(),
            c.total() == 0,
            c.counter() == 0,
    {
        Self::new()
    }
}


// ---------------------------------------------------------------------------
// Laws
// ---------------------------------------------------------------------------

/// The skips counted by patterns.
pub open spec fn pattern_total(ps: Seq<PatternView>) -> nat
    decreases ps.len(),
{
    if ps.len() == 0 {
        0
    } else {
        pattern_total(ps.drop_last()) + ps.last().1
    }
}

/// Counting two runs of patterns counts each.
proof fn lemma_pattern_total_concat(a: Seq<PatternView>, b: Seq<PatternView>)
    ensures
        pattern_total(a + b) == pattern_total(a) + pattern_total(b),
    decreases b.len(),
{
    if b.len() == 0 {
        assert(a + b =~= a);
    } else {
        lemma_pattern_total_concat(a, b.drop_last());
        assert((a + b).drop_last() =~= a + b.drop_last());
    }
}

/// Taking one pattern out counts it apart from the rest.
proof fn lemma_pattern_total_remove(s: Seq<PatternView>, i: int)
    requires
        0 <= i < s.len(),
    ensures
        pattern_total(s) == s[i].1 + pattern_total(s.remove(i)),
{
    let a = s.take(i);
    let b = s.skip(i + 1);
    assert(s =~= a + seq![s[i]] + b);
    assert(s.remove(i) =~= a + b);
    lemma_pattern_total_concat(a + seq![s[i]], b);
    lemma_pattern_total_concat(a, seq![s[i]]);
    lemma_pattern_total_concat(a, b);
    assert(seq![s[i]].drop_last() =~= Seq::<PatternView>::empty());
    assert(pattern_total(Seq::<PatternView>::empty()) == 0);
    assert(seq![s[i]].last() == s[i]);
    assert(pattern_total(seq![s[i]]) == s[i].1);
}

/// Ordering patterns does not change what they count.
proof fn lemma_pattern_total_sorted(s: Seq<PatternView>)
    ensures
        pattern_total(stable_sort(s, by_count_desc())) == pattern_total(s),
    decreases s.len(),
{
    if s.len() > 0 && exists|i: int| is_first_min(s, by_count_desc(), i) {
        let i = choose|i: int| is_first_min(s, by_count_desc(), i);
        lemma_stable_sort_step(s, by_count_desc(), i);
        lemma_pattern_total_sorted(s.remove(i));
        lemma_pattern_total_concat(seq![s[i]], stable_sort(s.remove(i), by_count_desc()));
        assert(seq![s[i]].drop_last() =~= Seq::<PatternView>::empty());
        assert(pattern_total(Seq::<PatternView>::empty()) == 0);
    assert(seq![s[i]].last() == s[i]);
    assert(pattern_total(seq![s[i]]) == s[i].1);
        lemma_pattern_total_remove(s, i);
    } else if s.len() > 0 {
        assert(stable_sort(s, by_count_desc()) == s);
    }
}

/// How often `k` occurs in `keys`.
pub open spec fn occurrences(keys: Seq<Seq<char>>, k: Seq<char>) -> nat
    decreases keys.len(),
{
    if keys.len() == 0 {
        0
    } else {
        occurrences(keys.drop_last(), k) + if keys.last() == k { 1nat } else { 0nat }
    }
}

/// A key that is absent occurs never; one in a list without repeats occurs
/// once.
proof fn lemma_occurrences(keys: Seq<Seq<char>>, k: Seq<char>)
    requires
        keys.no_duplicates(),
    ensures
        occurrences(keys, k) == if keys.contains(k) { 1nat } else { 0nat },
    decreases keys.len(),
{
    if keys.len() > 0 {
        let p = keys.drop_last();
        assert(p.no_duplicates()) by {
            assert forall|a: int, b: int| 0 <= a < b < p.len() implies p[a] != p[b] by {
                assert(p[a] == keys[a] && p[b] == keys[b]);
            }
        }
        lemma_occurrences(p, k);
        if keys.last() == k {
            assert(keys[keys.len() - 1] == k);
            if p.contains(k) {
                let j = choose|j: int| 0 <= j < p.len() && p[j] == k;
                assert(keys[j] == keys[keys.len() - 1]);
            }
        }
        if keys.contains(k) && keys.last() != k {
            let j = choose|j: int| 0 <= j < keys.len() && keys[j] == k;
            assert(p[j] == k);
        }
        if p.contains(k) {
            let j = choose|j: int| 0 <= j < p.len() && p[j] == k;
            assert(keys[j] == k);
        }
    }
}

/// The tasks grouped under `keys`.
pub open spec fn group_total(ks: Seq<Seq<char>>, keys: Seq<Seq<char>>) -> nat
    decreases keys.len(),
{
    if keys.len() == 0 {
        0
    } else {
        group_total(ks, keys.drop_last()) + positions_of(ks, keys.last()).len()
    }
}

/// One more task adds one to the group of its key.
proof fn lemma_group_total_step(ks: Seq<Seq<char>>, keys: Seq<Seq<char>>)
    requires
        ks.len() > 0,
    ensures
        group_total(ks, keys) == group_total(ks.drop_last(), keys) + occurrences(keys, ks.last()),
    decreases keys.len(),
{
    if keys.len() > 0 {
        lemma_group_total_step(ks, keys.drop_last());
    }
}

/// The groups of the first keys hold every task once.
proof fn lemma_groups_cover(ks: Seq<Seq<char>>)
    ensures
        group_total(ks, first_keys(ks)) == ks.len(),
    decreases ks.len(),
{
    if ks.len() > 0 {
        let p = ks.drop_last();
        let l = ks.last();
        lemma_groups_cover(p);
        lemma_first_keys(p);
        let fp = first_keys(p);
        lemma_group_total_step(ks, fp);
        lemma_occurrences(fp, l);
        if !fp.contains(l) {
            lemma_positions(p, l);
            assert(positions_of(ks, l).len() == positions_of(p, l).len() + 1);
            assert(fp.push(l).drop_last() =~= fp);
        }
    }
}

/// The skips the groups count.
proof fn lemma_grouped_total(ts: Seq<SkippedTask>)
    ensures
        pattern_total(grouped_patterns(ts)) == ts.len(),
{
    let ks = conditions_of(ts);
    let fk = first_keys(ks);
    assert forall|n: int| 0 <= n <= fk.len() implies #[trigger] pattern_total(
        grouped_patterns(ts).take(n),
    ) == group_total(ks, fk.take(n)) by {
        lemma_grouped_prefix(ts, n);
    }
    assert(grouped_patterns(ts).take(fk.len() as int) =~= grouped_patterns(ts));
    assert(fk.take(fk.len() as int) =~= fk);
    lemma_groups_cover(ks);
}

/// Prefixes of the groups count what the prefixes of the keys group.
proof fn lemma_grouped_prefix(ts: Seq<SkippedTask>, n: int)
    requires
        0 <= n <= first_keys(conditions_of(ts)).len(),
    ensures
        pattern_total(grouped_patterns(ts).take(n)) == group_total(
            conditions_of(ts),
            first_keys(conditions_of(ts)).take(n),
        ),
    decreases n,
{
    let ks = conditions_of(ts);
    let fk = first_keys(ks);
    if n > 0 {
        lemma_grouped_prefix(ts, n - 1);
        assert(grouped_patterns(ts).take(n).drop_last() =~= grouped_patterns(ts).take(n - 1));
        assert(fk.take(n).drop_last() =~= fk.take(n - 1));
    }
}

/// The skip patterns account for every skipped task once: their counts add
/// up to the number of skips.
pub proof fn lemma_patterns_count_skips(ts: Seq<SkippedTask>)
    ensures
        pattern_total(skip_patterns_of(ts)) == ts.len(),
{
    lemma_grouped_total(ts);
    lemma_pattern_total_sorted(grouped_patterns(ts));
}

} // verus!
