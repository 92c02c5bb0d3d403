//! The callback manager: a registry of named plugins with priorities, and
//! the bookkeeping of dispatching events to them.
//!
//! Plugins run in priority order (lower values first); disabled plugins are
//! skipped; while the manager is paused nothing is dispatched. The plugin
//! handles themselves are opaque to the manager: it stores them, hands them
//! out in order, and tallies what each dispatch reported.
use vstd::prelude::*;
use std::cmp::Ordering;
use vstd::std_specs::cmp::PartialOrdSpecImpl;
use crate::table::{views, HostTable};
use crate::text::push_str;

verus! {

// ---------------------------------------------------------------------------
// Priorities
// ---------------------------------------------------------------------------

/// Plugin execution priority; lower values run first.
#[derive(Clone, Copy, Debug, PartialEq, Eq, Structural, Hash, Ord)]
pub struct PluginPriority(pub i32);

/// Priorities are ordered by their values.
pub open spec fn priority_compare(a: PluginPriority, b: PluginPriority) -> Option<Ordering> {
    if a.0 < b.0 {
        Some(Ordering::Less)
    } else if a.0 == b.0 {
        Some(Ordering::Equal)
    } else {
        Some(Ordering::Greater)
    }
}

impl PartialOrd for PluginPriority {
    fn partial_cmp(&self, other: &Self) -> (r: Option<Ordering>) {
        if self.0 < other.0 {
            Some(Ordering::Less)
        } else if self.0 == other.0 {
            Some(Ordering::Equal)
        } else {
            Some(Ordering::Greater)
        }
    }
}

impl PartialOrdSpecImpl for PluginPriority {
    open spec fn obeys_partial_cmp_spec() -> bool {
        true
    }

    open spec fn partial_cmp_spec(&self, other: &Self) -> Option<Ordering> {
        priority_compare(*self, *other)
    }
}

/// Priorities compare as their values do (`<` and the other comparisons
/// of priorities go by `priority_compare`): `custom(a) < custom(b)` exactly
/// when `a < b`, and likewise for `>` and equality.
pub proof fn lemma_priority_order(a: i32, b: i32)
    ensures
        (priority_compare(PluginPriority(a), PluginPriority(b)) == Some(Ordering::Less)) == (a < b),
        (priority_compare(PluginPriority(a), PluginPriority(b)) == Some(Ordering::Greater)) == (a > b),
        (priority_compare(PluginPriority(a), PluginPriority(b)) == Some(Ordering::Equal)) == (a == b),
{
}

impl PluginPriority {
    /// Stdout plugins run first.
    pub fn stdout() -> (p: Self)
        ensures
            p.0 == 100,
    {
        PluginPriority(100)
    }

    /// Logging plugins.
    pub fn logging() -> (p: Self)
        ensures
            p.0 == 200,
    {
        PluginPriority(200)
    }

    /// The default priority.
    pub fn normal() -> (p: Self)
        ensures
            p.0 == 500,
    {
        PluginPriority(500)
    }

    /// Metrics plugins.
    pub fn metrics() -> (p: Self)
        ensures
            p.0 == 700,
    {
        PluginPriority(700)
    }

    /// Cleanup plugins run last.
    pub fn cleanup() -> (p: Self)
        ensures
            p.0 == 900,
    {
        PluginPriority(900)
    }

    /// A priority with the given value.
    pub fn custom(value: i32) -> (p: Self)
        ensures
            p.0 == value,
    {
        PluginPriority(value)
    }

    /// The numeric value.
    pub fn value(&self) -> (v: i32)
        ensures
            v == self.0,
    {
        self.0
    }
}

impl Default for PluginPriority {
    fn default() -> (p: Self)
        ensures
            p.0 == 500,
    {
        PluginPriority(500)
    }
}

// ---------------------------------------------------------------------------
// Dispatch results
// ---------------------------------------------------------------------------

/// A plugin failed while handling an event.
#[derive(Debug)]
pub struct PluginError {
    /// Name of the plugin that failed.
    pub plugin_name: String,
    /// The event being dispatched.
    pub event: String,
    /// What went wrong.
    pub message: String,
}

/// The display form of a plugin error.
pub open spec fn plugin_error_text(e: PluginError) -> Seq<char> {
    "Plugin '"@ + e.plugin_name@ + "' failed on event '"@ + e.event@ + "': "@ + e.message@
}

impl PluginError {
    /// `Plugin '<name>' failed on event '<event>': <message>`.
    pub fn to_string(&self) -> (s: String)
        ensures
            s@ == plugin_error_text(*self),
    {
        let mut s = String::new();
        push_str(&mut s, "Plugin '");
        push_str(&mut s, self.plugin_name.as_str());
        push_str(&mut s, "' failed on event '");
        push_str(&mut s, self.event.as_str());
        push_str(&mut s, "': ");
        push_str(&mut s, self.message.as_str());
        s
    }
}

/// What a dispatch of one event did.
#[derive(Debug)]
pub struct DispatchResult {
    /// Plugins that handled the event.
    pub success_count: usize,
    /// Plugins skipped because they were disabled.
    pub skipped_count: usize,
    /// Plugins that failed.
    pub errors: Vec<PluginError>,
}

impl Default for DispatchResult {
    fn default() -> (r: Self)
        ensures
            r.success_count == 0,
            r.skipped_count == 0,
            r.errors@.len() == 0,
    {
        DispatchResult { success_count: 0, skipped_count: 0, errors: Vec::new() }
    }
}

impl DispatchResult {
    /// No plugin failed.
    pub fn is_success(&self) -> (b: bool)
        ensures
            b == (self.errors@.len() == 0),
    {
        self.errors.len() == 0
    }

    /// Some plugin failed.
    pub fn has_errors(&self) -> (b: bool)
        ensures
            b == (self.errors@.len() > 0),
    {
        self.errors.len() > 0
    }

    /// Plugins that were called: those that succeeded and those that failed.
    pub fn total_dispatched(&self) -> (n: usize)
        requires
            self.success_count + self.errors@.len() <= usize::MAX,
        ensures
            n == self.success_count + self.errors@.len(),
    {
        self.success_count + self.errors.len()
    }

    /// The number of failures.
    pub fn error_count(&self) -> (n: usize)
        ensures
            n == self.errors@.len(),
    {
        self.errors.len()
    }
}

// ---------------------------------------------------------------------------
// The registry
// ---------------------------------------------------------------------------

/// A registered plugin.
#[derive(Debug)]
pub struct PluginEntry<P> {
    /// The plugin itself.
    pub plugin: P,
    /// When it runs.
    pub priority: PluginPriority,
    /// Whether events reach it.
    pub enabled: bool,
}

/// A plugin in dispatch order.
#[derive(Debug)]
pub struct DispatchTarget {
    /// The plugin's name.
    pub name: String,
    /// Its priority.
    pub priority: PluginPriority,
    /// Whether it is enabled.
    pub enabled: bool,
}

/// A dispatch target as plain values.
pub type TargetView = (Seq<char>, PluginPriority, bool);

/// The plain form of a list of dispatch targets.
pub open spec fn targets_view(ts: Seq<DispatchTarget>) -> Seq<TargetView> {
    Seq::new(ts.len(), |i: int| (ts[i].name@, ts[i].priority, ts[i].enabled))
}

/// Priorities never decrease along the list.
pub open spec fn priority_ordered(ts: Seq<TargetView>) -> bool {
    forall|i: int, j: int| 0 <= i < j < ts.len() ==> ts[i].1.0 <= ts[j].1.0
}

/// The list holds exactly the registered plugins, each once, with their
/// priority and enabled flag.
pub open spec fn lists_registry<P>(ts: Seq<TargetView>, m: Map<Seq<char>, PluginEntry<P>>) -> bool {
    &&& ts.len() == m.dom().len()
    &&& forall|i: int, j: int| 0 <= i < j < ts.len() ==> ts[i].0 != ts[j].0
    &&& forall|i: int|
        0 <= i < ts.len() ==> #[trigger] m.contains_key(ts[i].0) && m[ts[i].0].priority == ts[i].1
            && m[ts[i].0].enabled == ts[i].2
    &&& forall|k: Seq<char>| #[trigger] m.contains_key(k) ==> exists|i: int| 0 <= i < ts.len() && ts[i].0 == k
}

/// The number of enabled targets.
pub open spec fn enabled_count(ts: Seq<TargetView>) -> nat
    decreases ts.len(),
{
    if ts.len() == 0 {
        0
    } else {
        enabled_count(ts.drop_last()) + if ts.last().2 { 1nat } else { 0nat }
    }
}

/// Manages callback plugins: registration, priorities, enabling, pausing,
/// and the order in which events reach them.
#[derive(Debug)]
pub struct CallbackManager<P> {
    plugins: HostTable<PluginEntry<P>>,
    paused: bool,
}

impl<P> CallbackManager<P> {
    /// The registry is well formed.
    pub closed spec fn wf(&self) -> bool {
        self.plugins.wf()
    }

    /// The registered plugins by name.
    pub closed spec fn view(&self) -> Map<Seq<char>, PluginEntry<P>> {
        self.plugins@
    }

    /// Whether dispatch is paused.
    pub closed spec fn spec_paused(&self) -> bool {
        self.paused
    }

    /// An empty, running manager.
    pub fn new() -> (m: Self)
        ensures
            m.wf(),
            m@ == Map::<Seq<char>, PluginEntry<P>>::empty(),
            !m.spec_paused(),
    {
        CallbackManager { plugins: HostTable::new(), paused: false }
    }

    /// Registers (or replaces) a plugin under `name`, enabled, with the
    /// given priority. Returns whether the name was new.
    pub fn register(&mut self, name: &str, plugin: P, priority: PluginPriority) -> (is_new: bool)
        requires
            old(self).wf(),
        ensures
            final(self).wf(),
            is_new == !old(self)@.contains_key(name@),
            final(self)@ == old(self)@.insert(name@, PluginEntry { plugin, priority, enabled: true }),
            final(self).spec_paused() == old(self).spec_paused(),
            final(self)@.dom().finite(),
            final(self)@.dom().len() == old(self)@.dom().len() + if is_new { 1int } else { 0int },
    {
        proof {
            self.plugins.lemma_view();
        }
        let is_new = !self.plugins.contains(name);
        self.plugins.set(name, PluginEntry { plugin, priority, enabled: true });
        proof {
            self.plugins.lemma_view();
            if !is_new {
                assert(self@.dom() =~= old(self)@.dom());
            } else {
                assert(self@.dom() =~= old(self)@.dom().insert(name@));
            }
        }
        is_new
    }

    /// Registers a plugin with the normal priority.
    pub fn register_default(&mut self, name: &str, plugin: P) -> (is_new: bool)
        requires
            old(self).wf(),
        ensures
            final(self).wf(),
            is_new == !old(self)@.contains_key(name@),
            final(self)@ == old(self)@.insert(
                name@,
                PluginEntry { plugin, priority: PluginPriority(500), enabled: true },
            ),
            final(self).spec_paused() == old(self).spec_paused(),
    {
        self.register(name, plugin, PluginPriority(500))
    }

    /// Removes the plugin `name` and hands it back, if it was registered.
    pub fn deregister(&mut self, name: &str) -> (r: Option<P>)
        requires
            old(self).wf(),
        ensures
            final(self).wf(),
            final(self)@ == old(self)@.remove(name@),
            r.is_some() == old(self)@.contains_key(name@),
            r.is_some() ==> r.unwrap() == old(self)@[name@].plugin,
            final(self).spec_paused() == old(self).spec_paused(),
    {
        match self.plugins.remove(name) {
            Some(e) => Some(e.plugin),
            None => None,
        }
    }

    /// The number of registered plugins.
    pub fn plugin_count(&self) -> (n: usize)
        requires
            self.wf(),
        ensures
            n == self@.dom().len(),
    {
        self.plugins.len()
    }

    /// The names of the registered plugins.
    pub fn plugin_names(&self) -> (r: Vec<String>)
        requires
            self.wf(),
        ensures
            r@.len() == self@.dom().len(),
            forall|i: int, j: int| 0 <= i < j < r@.len() ==> r@[i]@ != r@[j]@,
            forall|k: Seq<char>| self@.contains_key(k) <==> views(r@).contains(k),
    {
        let r = self.plugins.sorted_names();
        proof {
            self.plugins.lemma_view();
            assert forall|i: int, j: int| 0 <= i < j < r@.len() implies r@[i]@ != r@[j]@ by {
                crate::text::lemma_lex_irreflexive(r@[i]@);
                assert(views(r@)[i] == r@[i]@);
                assert(views(r@)[j] == r@[j]@);
            }
        }
        r
    }

    /// Whether `name` is registered.
    pub fn has_plugin(&self, name: &str) -> (b: bool)
        requires
            self.wf(),
        ensures
            b == self@.contains_key(name@),
    {
        self.plugins.contains(name)
    }

    /// The priority of `name`, if registered.
    pub fn get_priority(&self, name: &str) -> (r: Option<PluginPriority>)
        requires
            self.wf(),
        ensures
            r == if self@.contains_key(name@) {
                Some(self@[name@].priority)
            } else {
                None::<PluginPriority>
            },
    {
        match self.plugins.get_ref(name) {
            Some(e) => Some(e.priority),
            None => None,
        }
    }

    /// The plugin registered under `name`.
    pub fn get_plugin(&self, name: &str) -> (r: Option<&P>)
        requires
            self.wf(),
        ensures
            r.is_some() == self@.contains_key(name@),
            r.is_some() ==> *r.unwrap() == self@[name@].plugin,
    {
        match self.plugins.get_ref(name) {
            Some(e) => Some(&e.plugin),
            None => None,
        }
    }

    fn set_enabled(&mut self, name: &str, enabled: bool) -> (found: bool)
        requires
            old(self).wf(),
        ensures
            final(self).wf(),
            found == old(self)@.contains_key(name@),
            final(self)@ == if found {
                old(self)@.insert(name@, PluginEntry { enabled, ..old(self)@[name@] })
            } else {
                old(self)@
            },
            final(self).spec_paused() == old(self).spec_paused(),
    {
        if self.plugins.contains(name) {
            let e = self.plugins.get_mut(name);
            e.enabled = enabled;
            true
        } else {
            false
        }
    }

    /// Enables `name`; returns whether it is registered.
    pub fn enable_plugin(&mut self, name: &str) -> (found: bool)
        requires
            old(self).wf(),
        ensures
            final(self).wf(),
            found == old(self)@.contains_key(name@),
            final(self)@ == if found {
                old(self)@.insert(name@, PluginEntry { enabled: true, ..old(self)@[name@] })
            } else {
                old(self)@
            },
            final(self).spec_paused() == old(self).spec_paused(),
    {
        self.set_enabled(name, true)
    }

    /// Disables `name`; returns whether it is registered.
    pub fn disable_plugin(&mut self, name: &str) -> (found: bool)
        requires
            old(self).wf(),
        ensures
            final(self).wf(),
            found == old(self)@.contains_key(name@),
            final(self)@ == if found {
                old(self)@.insert(name@, PluginEntry { enabled: false, ..old(self)@[name@] })
            } else {
                old(self)@
            },
            final(self).spec_paused() == old(self).spec_paused(),
    {
        self.set_enabled(name, false)
    }

    /// Whether `name` is registered and enabled.
    pub fn is_plugin_enabled(&self, name: &str) -> (b: bool)
        requires
            self.wf(),
        ensures
            b == (self@.contains_key(name@) && self@[name@].enabled),
    {
        match self.plugins.get_ref(name) {
            Some(e) => e.enabled,
            None => false,
        }
    }

    /// Stops dispatching events.
    pub fn pause(&mut self)
        ensures
            final(self).spec_paused(),
            final(self)@ == old(self)@,
            final(self).wf() == old(self).wf(),
    {
        self.paused = true;
    }

    /// Resumes dispatching events.
    pub fn resume(&mut self)
        ensures
            !final(self).spec_paused(),
            final(self)@ == old(self)@,
            final(self).wf() == old(self).wf(),
    {
        self.paused = false;
    }

    /// Whether dispatch is paused.
    pub fn is_paused(&self) -> (b: bool)
        ensures
            b == self.spec_paused(),
    {
        self.paused
    }

    /// The registered plugins in priority order (lower values first; the
    /// order among equal priorities is left open).
    pub fn ordered_plugins(&self) -> (r: Vec<DispatchTarget>)
        requires
            self.wf(),
        ensures
            priority_ordered(targets_view(r@)),
            lists_registry(targets_view(r@), self@),
    {
        let n = self.plugins.len();
        proof {
            self.plugins.lemma_view();
        }
        let mut r: Vec<DispatchTarget> = Vec::new();
        let mut k: usize = 0;
        while k < n
            invariant
                self.wf(),
                n == self.plugins.names().len(),
                k <= n,
                r@.len() == k,
                forall|i: int, j: int| 0 <= i < j < r@.len() ==> r@[i].priority.0 <= r@[j].priority.0,
                forall|i: int, j: int| 0 <= i < j < r@.len() ==> r@[i].name@ != r@[j].name@,
                forall|i: int|
                    0 <= i < r@.len() ==> #[trigger] self@.contains_key(r@[i].name@) && self@[r@[i].name@].priority
                        == r@[i].priority && self@[r@[i].name@].enabled == r@[i].enabled,
                forall|x: Seq<char>|
                    views_of_targets(r@).contains(x) <==> exists|j: int|
                        0 <= j < k && self.plugins.names()[j] == x,
                forall|i: int, j: int|
                    0 <= i < j < self.plugins.names().len() ==> self.plugins.names()[i] != self.plugins.names()[j],
            decreases n - k,
        {
            let (name, e) = self.plugins.entry_ref(k);
            let prio = e.priority;
            let ghost nv = name@;
            let mut p: usize = r.len();
            while p > 0 && r[p - 1].priority.0 > prio.0
                invariant
                    p <= r@.len(),
                    forall|j: int| p <= j < r@.len() ==> r@[j].priority.0 > prio.0,
                decreases p,
            {
                p = p - 1;
            }
            let ghost old_r = r@;
            proof {
                assert(p == 0 || old_r[p - 1].priority.0 <= prio.0);
            }
            r.insert(p, DispatchTarget { name: name.clone(), priority: prio, enabled: e.enabled });
            proof {
                assert(r@[p as int].name@ == nv);
                assert(forall|j: int| 0 <= j < p ==> r@[j] == old_r[j]);
                assert(forall|j: int| p < j < r@.len() ==> r@[j] == old_r[j - 1]);
                assert forall|i: int, j: int| 0 <= i < j < r@.len() implies r@[i].priority.0 <= r@[j].priority.0 by {
                    if j < p {
                    } else if j == p {
                        if i < p - 1 {
                            assert(old_r[i].priority.0 <= old_r[p - 1].priority.0);
                        }
                    } else if i < p {
                        assert(old_r[i].priority.0 <= old_r[j - 1].priority.0);
                    } else if i == p {
                        assert(old_r[j - 1].priority.0 > prio.0);
                    } else {
                        assert(old_r[i - 1].priority.0 <= old_r[j - 1].priority.0);
                    }
                }
                assert(views_of_targets(r@) =~= views_of_targets(old_r).insert(p as int, nv));
                assert(!views_of_targets(old_r).contains(nv)) by {
                    if views_of_targets(old_r).contains(nv) {
                        let j = choose|j: int| 0 <= j < k && self.plugins.names()[j] == nv;
                        assert(self.plugins.names()[j] != self.plugins.names()[k as int]);
                    }
                }
                assert forall|i: int, j: int| 0 <= i < j < r@.len() implies r@[i].name@ != r@[j].name@ by {
                    if i == p {
                        assert(views_of_targets(old_r)[j - 1] == r@[j].name@);
                    } else if j == p {
                        assert(views_of_targets(old_r)[i] == r@[i].name@);
                    } else if i < p && j > p {
                        assert(old_r[i].name@ != old_r[j - 1].name@);
                    } else if i > p {
                        assert(old_r[i - 1].name@ != old_r[j - 1].name@);
                    }
                }
                assert forall|i: int|
                    0 <= i < r@.len() implies #[trigger] self@.contains_key(r@[i].name@) && self@[r@[i].name@].priority
                        == r@[i].priority && self@[r@[i].name@].enabled == r@[i].enabled by {
                    if i < p {
                        assert(self@.contains_key(old_r[i].name@));
                    } else if i > p {
                        assert(self@.contains_key(old_r[i - 1].name@));
                    }
                }
                assert forall|x: Seq<char>| views_of_targets(r@).contains(x) <==> exists|j: int|
                    0 <= j < k + 1 && self.plugins.names()[j] == x by {
                    if views_of_targets(r@).contains(x) {
                        let i = choose|i: int| 0 <= i < r@.len() && views_of_targets(r@)[i] == x;
                        if i < p {
                            assert(views_of_targets(old_r)[i] == x);
                            assert(views_of_targets(old_r).contains(x));
                        } else if i > p {
                            assert(views_of_targets(old_r)[i - 1] == x);
                            assert(views_of_targets(old_r).contains(x));
                        } else {
                            assert(self.plugins.names()[k as int] == x);
                        }
                    }
                    if exists|j: int| 0 <= j < k + 1 && self.plugins.names()[j] == x {
                        let j = choose|j: int| 0 <= j < k + 1 && self.plugins.names()[j] == x;
                        if j == k {
                            assert(views_of_targets(r@)[p as int] == x);
                        } else {
                            assert(views_of_targets(old_r).contains(x));
                            let i = choose|i: int| 0 <= i < old_r.len() && views_of_targets(old_r)[i] == x;
                            if i < p {
                                assert(views_of_targets(r@)[i] == x);
                            } else {
                                assert(views_of_targets(r@)[i + 1] == x);
                            }
                        }
                    }
                }
            }
            k = k + 1;
        }
        proof {
            let ts = targets_view(r@);
            assert forall|i: int, j: int| 0 <= i < j < ts.len() implies ts[i].0 != ts[j].0 by {}
            assert forall|i: int| 0 <= i < ts.len() implies #[trigger] self@.contains_key(ts[i].0)
                && self@[ts[i].0].priority == ts[i].1 && self@[ts[i].0].enabled == ts[i].2 by {
                assert(ts[i].0 == r@[i].name@);
                assert(self@.contains_key(r@[i].name@));
            }
            assert forall|i: int, j: int| 0 <= i < j < ts.len() implies ts[i].1.0 <= ts[j].1.0 by {
                assert(r@[i].priority.0 <= r@[j].priority.0);
            }
            assert forall|x: Seq<char>| #[trigger] self@.contains_key(x) implies exists|i: int|
                0 <= i < ts.len() && ts[i].0 == x by {
                assert(self.plugins.names().contains(x));
                let j = choose|j: int| 0 <= j < self.plugins.names().len() && self.plugins.names()[j] == x;
                assert(views_of_targets(r@).contains(x));
                let i = choose|i: int| 0 <= i < r@.len() && views_of_targets(r@)[i] == x;
                assert(ts[i].0 == x);
            }
        }
        r
    }

    /// The targets an event goes to: none while paused, otherwise every
    /// registered plugin in priority order.
    pub fn dispatch_targets(&self) -> (r: Vec<DispatchTarget>)
        requires
            self.wf(),
        ensures
            self.spec_paused() ==> r@.len() == 0,
            !self.spec_paused() ==> priority_ordered(targets_view(r@)) && lists_registry(
                targets_view(r@),
                self@,
            ),
    {
        if self.paused {
            Vec::new()
        } else {
            self.ordered_plugins()
        }
    }

    /// The number of enabled plugins.
    pub fn enabled_plugin_count(&self) -> (n: usize)
        requires
            self.wf(),
        ensures
            n == self@.dom().filter(|k: Seq<char>| self@[k].enabled).len(),
    {
        let ts = self.ordered_plugins();
        let n = count_enabled(&ts);
        proof {
            self.plugins.lemma_view();
            lemma_enabled_count_is_filter(targets_view(ts@), self@);
        }
        n
    }
}

/// The names of a list of targets.
pub open spec fn views_of_targets(ts: Seq<DispatchTarget>) -> Seq<Seq<char>> {
    Seq::new(ts.len(), |i: int| ts[i].name@)
}

/// The number of enabled targets in `ts`.
pub fn count_enabled(ts: &Vec<DispatchTarget>) -> (n: usize)
    ensures
        n == enabled_count(targets_view(ts@)),
{
    let mut n: usize = 0;
    let mut i: usize = 0;
    while i < ts.len()
        invariant
            i <= ts.len(),
            n <= i,
            n == enabled_count(targets_view(ts@.subrange(0, i as int))),
        decreases ts.len() - i,
    {
        proof {
            assert(targets_view(ts@.subrange(0, i + 1)).drop_last() =~= targets_view(ts@.subrange(0, i as int)));
        }
        if ts[i].enabled {
            n = n + 1;
        }
        i = i + 1;
    }
    proof {
        assert(ts@.subrange(0, i as int) =~= ts@);
    }
    n
}

/// The enabled targets of a list of the registry are the enabled plugins.
pub proof fn lemma_enabled_count_is_filter<P>(ts: Seq<TargetView>, m: Map<Seq<char>, PluginEntry<P>>)
    requires
        lists_registry(ts, m),
        m.dom().finite(),
    ensures
        enabled_count(ts) == m.dom().filter(|k: Seq<char>| m[k].enabled).len(),
    decreases ts.len(),
{
    let f = |k: Seq<char>| m[k].enabled;
    if ts.len() == 0 {
        assert(m.dom() =~= Set::empty()) by {
            assert forall|k: Seq<char>| !m.contains_key(k) by {
                if m.contains_key(k) {
                    let i = choose|i: int| 0 <= i < ts.len() && ts[i].0 == k;
                }
            }
        }
        assert(m.dom().filter(f) =~= Set::empty());
    } else {
        let last = ts.last();
        let init = ts.drop_last();
        let m2 = m.remove(last.0);
        assert(m.contains_key(ts[ts.len() - 1].0));
        assert(lists_registry(init, m2)) by {
            assert forall|i: int| 0 <= i < init.len() implies #[trigger] m2.contains_key(init[i].0)
                && m2[init[i].0].priority == init[i].1 && m2[init[i].0].enabled == init[i].2 by {
                assert(init[i] == ts[i]);
                assert(ts[i].0 != ts[ts.len() - 1].0);
                assert(m.contains_key(ts[i].0));
            }
            assert forall|k: Seq<char>| #[trigger] m2.contains_key(k) implies exists|i: int|
                0 <= i < init.len() && init[i].0 == k by {
                let i = choose|i: int| 0 <= i < ts.len() && ts[i].0 == k;
                assert(i != ts.len() - 1);
                assert(init[i].0 == k);
            }
            assert(m2.dom() =~= m.dom().remove(last.0));
        }
        lemma_enabled_count_is_filter(init, m2);
        let f2 = |k: Seq<char>| m2[k].enabled;
        assert(m2.dom().filter(f2) =~= m.dom().filter(f).remove(last.0));
        if last.2 {
            assert(m.dom().filter(f).contains(last.0));
        } else {
            assert(m.dom().filter(f).remove(last.0) =~= m.dom().filter(f));
        }
    }
}

// ---------------------------------------------------------------------------
// Tallying a dispatch
// ---------------------------------------------------------------------------

/// How many targets were skipped (disabled).
pub open spec fn disabled_count(ts: Seq<TargetView>) -> nat
    decreases ts.len(),
{
    if ts.len() == 0 {
        0
    } else {
        disabled_count(ts.drop_last()) + if !ts.last().2 { 1nat } else { 0nat }
    }
}

/// How many enabled targets reported success (`None`).
pub open spec fn succeeded_count(ts: Seq<TargetView>, outcomes: Seq<Option<String>>) -> nat
    decreases ts.len(),
{
    if ts.len() == 0 || outcomes.len() != ts.len() {
        0
    } else {
        succeeded_count(ts.drop_last(), outcomes.drop_last()) + if ts.last().2 && outcomes.last() is None {
            1nat
        } else {
            0nat
        }
    }
}

/// The errors of the enabled targets that reported one, in order, as
/// (plugin, message).
pub open spec fn failures(ts: Seq<TargetView>, outcomes: Seq<Option<String>>) -> Seq<(Seq<char>, Seq<char>)>
    decreases ts.len(),
{
    if ts.len() == 0 || outcomes.len() != ts.len() {
        Seq::empty()
    } else {
        let init = failures(ts.drop_last(), outcomes.drop_last());
        match outcomes.last() {
            Some(m) => if ts.last().2 {
                init.push((ts.last().0, m@))
            } else {
                init
            },
            None => init,
        }
    }
}

/// The plain form of a list of plugin errors: (plugin, event, message).
pub open spec fn errors_view(es: Seq<PluginError>) -> Seq<(Seq<char>, Seq<char>, Seq<char>)> {
    Seq::new(es.len(), |i: int| (es[i].plugin_name@, es[i].event@, es[i].message@))
}

/// `(plugin, message)` pairs with the event added.
pub open spec fn with_event(fs: Seq<(Seq<char>, Seq<char>)>, event: Seq<char>) -> Seq<
    (Seq<char>, Seq<char>, Seq<char>),
> {
    Seq::new(fs.len(), |i: int| (fs[i].0, event, fs[i].1))
}

/// The result of dispatching `event` to `targets`, where `outcomes[i]` is
/// what target `i` reported (`None` for success, or the failure message;
/// disabled targets were not called and their outcome is ignored).
pub fn tally(targets: &Vec<DispatchTarget>, event: &str, outcomes: &Vec<Option<String>>) -> (r: DispatchResult)
    requires
        outcomes@.len() == targets@.len(),
    ensures
        r.skipped_count == disabled_count(targets_view(targets@)),
        r.success_count == succeeded_count(targets_view(targets@), outcomes@),
        errors_view(r.errors@) == with_event(failures(targets_view(targets@), outcomes@), event@),
{
    let mut r = DispatchResult::default();
    let mut i: usize = 0;
    while i < targets.len()
        invariant
            i <= targets.len(),
            outcomes@.len() == targets@.len(),
            r.skipped_count + r.success_count + r.errors@.len() <= i,
            r.skipped_count == disabled_count(targets_view(targets@.subrange(0, i as int))),
            r.success_count == succeeded_count(
                targets_view(targets@.subrange(0, i as int)),
                outcomes@.subrange(0, i as int),
            ),
            errors_view(r.errors@) == with_event(
                failures(targets_view(targets@.subrange(0, i as int)), outcomes@.subrange(0, i as int)),
                event@,
            ),
        decreases targets.len() - i,
    {
        proof {
            assert(targets_view(targets@.subrange(0, i + 1)).drop_last() =~= targets_view(
                targets@.subrange(0, i as int),
            ));
            assert(outcomes@.subrange(0, i + 1).drop_last() =~= outcomes@.subrange(0, i as int));
        }
        let ghost before = errors_view(r.errors@);
        if !targets[i].enabled {
            r.skipped_count = r.skipped_count + 1;
        } else {
            match &outcomes[i] {
                None => {
                    r.success_count = r.success_count + 1;
                },
                Some(m) => {
                    r.errors.push(
                        PluginError {
                            plugin_name: targets[i].name.clone(),
                            event: event.to_owned(),
                            message: m.clone(),
                        },
                    );
                    proof {
                        assert(errors_view(r.errors@) =~= before.push(
                            (targets[i as int].name@, event@, outcomes@[i as int].unwrap()@),
                        ));
                        let fs = failures(
                            targets_view(targets@.subrange(0, i + 1)),
                            outcomes@.subrange(0, i + 1),
                        );
                        assert(with_event(fs, event@) =~= before.push(
                            (targets[i as int].name@, event@, outcomes@[i as int].unwrap()@),
                        ));
                    }
                },
            }
        }
        i = i + 1;
    }
    proof {
        assert(targets@.subrange(0, i as int) =~= targets@);
        assert(outcomes@.subrange(0, i as int) =~= outcomes@);
    }
    r
}


// ---------------------------------------------------------------------------
// Laws
// ---------------------------------------------------------------------------

/// One plugin's failure does not stop the others: every target of a
/// dispatch is counted exactly once, as skipped (disabled), succeeded or
/// failed; the enabled ones are exactly those that succeeded or failed.
pub proof fn lemma_tally_accounts(ts: Seq<TargetView>, outcomes: Seq<Option<String>>)
    requires
        outcomes.len() == ts.len(),
    ensures
        disabled_count(ts) + succeeded_count(ts, outcomes) + failures(ts, outcomes).len() == ts.len(),
        succeeded_count(ts, outcomes) + failures(ts, outcomes).len() == enabled_count(ts),
    decreases ts.len(),
{
    if ts.len() > 0 {
        lemma_tally_accounts(ts.drop_last(), outcomes.drop_last());
    }
}

/// Registering a name and then deregistering it leaves the registry as
/// deregistering it alone would: the name is gone and nothing else changed.
pub proof fn lemma_register_then_deregister<P>(m: Map<Seq<char>, PluginEntry<P>>, name: Seq<char>, e: PluginEntry<P>)
    ensures
        m.insert(name, e).remove(name) == m.remove(name),
        !m.insert(name, e).remove(name).contains_key(name),
{
    assert(m.insert(name, e).remove(name) =~= m.remove(name));
}

/// Registering a name twice keeps one entry, the second one.
pub proof fn lemma_register_replaces<P>(
    m: Map<Seq<char>, PluginEntry<P>>,
    name: Seq<char>,
    first: PluginEntry<P>,
    second: PluginEntry<P>,
)
    requires
        m.dom().finite(),
    ensures
        m.insert(name, first).insert(name, second) == m.insert(name, second),
        m.insert(name, second).dom().len() == if m.contains_key(name) { m.dom().len() } else { m.dom().len() + 1 },
{
    assert(m.insert(name, first).insert(name, second) =~= m.insert(name, second));
    if m.contains_key(name) {
        assert(m.insert(name, second).dom() =~= m.dom());
    } else {
        assert(m.insert(name, second).dom() =~= m.dom().insert(name));
    }
}


// ---------------------------------------------------------------------------
// Dispatching one event, step by step
// ---------------------------------------------------------------------------

/// The first enabled target at or after position `from`, if any.
pub open spec fn first_enabled_from(ts: Seq<TargetView>, from: int, i: int) -> bool {
    &&& from <= i < ts.len()
    &&& ts[i].2
    &&& forall|j: int| from <= j < i ==> !(#[trigger] ts[j]).2
}

/// The progress of dispatching one event: the targets in dispatch order,
/// what the targets before `next` reported (disabled ones report nothing,
/// as they are not called), and whether the target at `next` was handed
/// out and its report is awaited.
pub struct Dispatch {
    targets: Vec<DispatchTarget>,
    outcomes: Vec<Option<String>>,
    awaiting: bool,
    handed: Ghost<Seq<int>>,
}

/// The positions of the enabled targets among the first `n`, in order.
pub open spec fn enabled_upto(ts: Seq<TargetView>, n: int) -> Seq<int>
    decreases n,
{
    if n <= 0 {
        Seq::empty()
    } else {
        enabled_upto(ts, n - 1) + if ts[n - 1].2 {
            seq![n - 1]
        } else {
            Seq::empty()
        }
    }
}

/// The positions of the enabled targets among the first `n` are strictly
/// increasing, and they are exactly the enabled positions below `n`.
pub proof fn lemma_enabled_upto(ts: Seq<TargetView>, n: int)
    requires
        0 <= n <= ts.len(),
    ensures
        forall|a: int, b: int| 0 <= a < b < enabled_upto(ts, n).len() ==> enabled_upto(ts, n)[a] < enabled_upto(ts, n)[b],
        forall|a: int| 0 <= a < enabled_upto(ts, n).len() ==> 0 <= #[trigger] enabled_upto(ts, n)[a] < n,
        forall|j: int| enabled_upto(ts, n).contains(j) <==> 0 <= j < n && ts[j].2,
    decreases n,
{
    if n > 0 {
        lemma_enabled_upto(ts, n - 1);
        let prev = enabled_upto(ts, n - 1);
        assert forall|j: int| enabled_upto(ts, n).contains(j) <==> 0 <= j < n && ts[j].2 by {
            if enabled_upto(ts, n).contains(j) {
                let a = choose|a: int| 0 <= a < enabled_upto(ts, n).len() && enabled_upto(ts, n)[a] == j;
                if a < prev.len() {
                    assert(prev[a] == j);
                    assert(prev.contains(j));
                }
            }
            if 0 <= j < n && ts[j].2 {
                if j < n - 1 {
                    assert(prev.contains(j));
                    let a = choose|a: int| 0 <= a < prev.len() && prev[a] == j;
                    assert(enabled_upto(ts, n)[a] == j);
                } else {
                    assert(enabled_upto(ts, n)[prev.len() as int] == j);
                }
            }
        }
    }
}

impl Dispatch {
    /// The targets, as plain values.
    pub closed spec fn spec_targets(&self) -> Seq<TargetView> {
        targets_view(self.targets@)
    }

    /// What the targets passed so far reported.
    pub closed spec fn reported(&self) -> Seq<Option<String>> {
        self.outcomes@
    }

    /// Whether a target was handed out and its report is awaited.
    pub closed spec fn spec_awaiting(&self) -> bool {
        self.awaiting
    }

    /// The positions handed out so far, in the order they were handed out.
    pub closed spec fn handed(&self) -> Seq<int> {
        self.handed@
    }

    /// The reports never outrun the targets, a handed-out target is an
    /// enabled one, and the targets handed out are the enabled ones passed
    /// so far, with the awaited one last.
    pub open spec fn wf(&self) -> bool {
        &&& self.reported().len() <= self.spec_targets().len()
        &&& self.spec_awaiting() ==> self.reported().len() < self.spec_targets().len()
            && self.spec_targets()[self.reported().len() as int].2
        &&& self.handed() == enabled_upto(self.spec_targets(), self.reported().len() as int) + if self.spec_awaiting() {
            seq![self.reported().len() as int]
        } else {
            Seq::empty()
        }
    }

    /// A dispatch over the given targets, nothing called yet.
    pub fn new(targets: Vec<DispatchTarget>) -> (d: Self)
        ensures
            d.wf(),
            d.spec_targets() == targets_view(targets@),
            d.reported() == Seq::<Option<String>>::empty(),
            !d.spec_awaiting(),
            d.handed() == Seq::<int>::empty(),
    {
        let d = Dispatch { targets, outcomes: Vec::new(), awaiting: false, handed: Ghost(Seq::empty()) };
        proof {
            assert(d.handed() =~= enabled_upto(d.spec_targets(), 0) + Seq::<int>::empty());
        }
        d
    }

    /// The next target to call: the first enabled one not yet passed (the
    /// disabled ones before it are passed as not called); `None` when none
    /// is left, all targets then being passed.
    pub fn next_call(&mut self) -> (r: Option<usize>)
        requires
            old(self).wf(),
            !old(self).spec_awaiting(),
        ensures
            final(self).wf(),
            final(self).spec_targets() == old(self).spec_targets(),
            match r {
                Some(i) => {
                    &&& first_enabled_from(old(self).spec_targets(), old(self).reported().len() as int, i as int)
                    &&& final(self).reported().len() == i
                    &&& final(self).spec_awaiting()
                    &&& final(self).handed() == old(self).handed().push(i as int)
                },
                None => {
                    &&& forall|j: int| old(self).reported().len() <= j < old(self).spec_targets().len()
                        ==> !(#[trigger] old(self).spec_targets()[j]).2
                    &&& final(self).reported().len() == final(self).spec_targets().len()
                    &&& !final(self).spec_awaiting()
                    &&& final(self).handed() == old(self).handed()
                },
            },
            old(self).reported().is_prefix_of(final(self).reported()),
            forall|j: int| old(self).reported().len() <= j < final(self).reported().len() ==> (
            #[trigger] final(self).reported()[j]) is None,
    {
        let ghost start = self.outcomes@;
        proof {
            assert(self.handed@ =~= enabled_upto(targets_view(self.targets@), start.len() as int));
        }
        while self.outcomes.len() < self.targets.len()
            invariant
                self.outcomes@.len() <= self.targets@.len(),
                self.targets == old(self).targets,
                !self.awaiting,
                self.handed == old(self).handed,
                self.handed@ == enabled_upto(targets_view(self.targets@), self.outcomes@.len() as int),
                start == old(self).outcomes@,
                start.len() <= self.outcomes@.len(),
                start.is_prefix_of(self.outcomes@),
                forall|j: int| start.len() <= j < self.outcomes@.len() ==> (#[trigger] self.outcomes@[j]) is None,
                forall|j: int| start.len() <= j < self.outcomes@.len() ==> !(#[trigger] self.targets@[j]).enabled,
            decreases self.targets@.len() - self.outcomes@.len(),
        {
            let i = self.outcomes.len();
            if self.targets[i].enabled {
                self.awaiting = true;
                let ghost prev = self.handed@;
                self.handed = Ghost(self.handed@.push(i as int));
                proof {
                    assert(self.handed@ =~= prev + seq![i as int]);
                    assert forall|j: int| start.len() <= j < i implies !(#[trigger] targets_view(self.targets@)[j]).2 by {
                        assert(!self.targets@[j].enabled);
                    }
                }
                return Some(i);
            }
            let ghost before = self.outcomes@;
            self.outcomes.push(None);
            proof {
                assert(enabled_upto(targets_view(self.targets@), i + 1) =~= enabled_upto(
                    targets_view(self.targets@),
                    i as int,
                ));
                assert(start.is_prefix_of(self.outcomes@)) by {
                    assert forall|j: int| 0 <= j < start.len() implies start[j] == self.outcomes@[j] by {
                        assert(before[j] == start[j]);
                    }
                }
            }
        }
        proof {
            assert forall|j: int| start.len() <= j < targets_view(self.targets@).len() implies !(
            #[trigger] targets_view(self.targets@)[j]).2 by {
                assert(!self.targets@[j].enabled);
            }
            assert(self.handed@ =~= enabled_upto(targets_view(self.targets@), self.outcomes@.len() as int)
                + Seq::<int>::empty());
        }
        None
    }

    /// The handed-out target reports: `None` for success, or the failure
    /// message.
    pub fn report(&mut self, outcome: Option<String>)
        requires
            old(self).wf(),
            old(self).spec_awaiting(),
        ensures
            final(self).wf(),
            final(self).spec_targets() == old(self).spec_targets(),
            final(self).reported() == old(self).reported().push(outcome),
            !final(self).spec_awaiting(),
            final(self).handed() == old(self).handed(),
    {
        let ghost i = self.outcomes@.len() as int;
        self.outcomes.push(outcome);
        self.awaiting = false;
        proof {
            assert(enabled_upto(self.spec_targets(), i + 1) =~= enabled_upto(self.spec_targets(), i) + seq![i]);
            assert(self.handed() =~= enabled_upto(self.spec_targets(), i + 1) + Seq::<int>::empty());
        }
    }

    /// The result, once every target is passed: as `tally` counts it. The
    /// targets handed out were the enabled ones, each once, in order.
    pub fn finish(&self, event: &str) -> (r: DispatchResult)
        requires
            self.wf(),
            !self.spec_awaiting(),
            self.reported().len() == self.spec_targets().len(),
        ensures
            self.handed() == enabled_upto(self.spec_targets(), self.spec_targets().len() as int),
            r.skipped_count == disabled_count(self.spec_targets()),
            r.success_count == succeeded_count(self.spec_targets(), self.reported()),
            errors_view(r.errors@) == with_event(failures(self.spec_targets(), self.reported()), event@),
    {
        tally(&self.targets, event, &self.outcomes)
    }
}

/// A finished dispatch called the enabled targets, each exactly once, in
/// the targets' (priority) order, and no disabled one.
pub proof fn lemma_dispatch_calls(d: Dispatch)
    requires
        d.wf(),
        !d.spec_awaiting(),
        d.reported().len() == d.spec_targets().len(),
    ensures
        forall|a: int, b: int| 0 <= a < b < d.handed().len() ==> d.handed()[a] < d.handed()[b],
        forall|j: int| d.handed().contains(j) <==> 0 <= j < d.spec_targets().len() && d.spec_targets()[j].2,
{
    lemma_enabled_upto(d.spec_targets(), d.spec_targets().len() as int);
    assert(d.handed() =~= enabled_upto(d.spec_targets(), d.spec_targets().len() as int));
}

/// How an event is dispatched, as a whole: while the manager is paused the
/// targets are none, so nothing is called, skipped, succeeded or failed;
/// otherwise the targets are the registered plugins, each once, in priority
/// order, the disabled ones are the skipped ones, and every enabled one
/// either succeeded or failed.
pub proof fn lemma_dispatch_law<P>(m: CallbackManager<P>, ts: Seq<TargetView>, outcomes: Seq<Option<String>>)
    requires
        m.wf(),
        m.spec_paused() ==> ts.len() == 0,
        !m.spec_paused() ==> priority_ordered(ts) && lists_registry(ts, m@),
        outcomes.len() == ts.len(),
    ensures
        m.spec_paused() ==> disabled_count(ts) == 0 && succeeded_count(ts, outcomes) == 0 && failures(
            ts,
            outcomes,
        ).len() == 0,
        !m.spec_paused() ==> {
            &&& succeeded_count(ts, outcomes) + failures(ts, outcomes).len() == m@.dom().filter(
                |k: Seq<char>| m@[k].enabled,
            ).len()
            &&& disabled_count(ts) + m@.dom().filter(|k: Seq<char>| m@[k].enabled).len() == m@.dom().len()
            &&& forall|i: int, j: int| 0 <= i < j < ts.len() ==> ts[i].1.0 <= ts[j].1.0
            &&& forall|i: int, j: int| 0 <= i < j < ts.len() ==> ts[i].0 != ts[j].0
        },
{
    lemma_tally_accounts(ts, outcomes);
    if !m.spec_paused() {
        m.plugins.lemma_view();
        lemma_enabled_count_is_filter(ts, m@);
    }
}

} // verus!
