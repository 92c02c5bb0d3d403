//! The execution events that the plugins receive: task results, durations
//! and the JSON data that modules attach to their results.
use vstd::prelude::*;
use crate::table::HostTable;

verus! {

/// The largest number of nanoseconds a duration can hold (`u64::MAX`
/// seconds plus 999_999_999 nanoseconds).
pub open spec fn max_elapsed_nanos() -> nat {
    18446744073709551615 * 1_000_000_000 + 999_999_999
}

/// A span of time, counted in nanoseconds, with the range of
/// `std::time::Duration`.
#[derive(Clone, Copy, Debug, PartialEq, Eq)]
pub struct Elapsed {
    /// Total nanoseconds.
    pub nanos: u128,
}

impl Elapsed {
    /// The duration lies in the range of `std::time::Duration`.
    pub open spec fn wf(&self) -> bool {
        self.nanos <= max_elapsed_nanos()
    }

    /// Whole seconds (`Duration::as_secs`).
    pub open spec fn secs_of(&self) -> nat {
        (self.nanos / 1_000_000_000) as nat
    }

    /// Milliseconds within the current second (`Duration::subsec_millis`).
    pub open spec fn subsec_millis_of(&self) -> nat {
        ((self.nanos % 1_000_000_000) / 1_000_000) as nat
    }

    /// A zero-length duration.
    pub fn zero() -> (e: Elapsed)
        ensures
            e.nanos == 0,
            e.wf(),
    {
        Elapsed { nanos: 0 }
    }

    /// `Duration::from_secs`.
    pub fn from_secs(secs: u64) -> (e: Elapsed)
        ensures
            e.nanos == secs * 1_000_000_000,
            e.wf(),
    {
        Elapsed { nanos: (secs as u128) * 1_000_000_000 }
    }

    /// `Duration::from_millis`.
    pub fn from_millis(ms: u64) -> (e: Elapsed)
        ensures
            e.nanos == ms * 1_000_000,
            e.wf(),
    {
        Elapsed { nanos: (ms as u128) * 1_000_000 }
    }

    /// `Duration::new(secs, nanos)` for `nanos` below one second.
    pub fn from_parts(secs: u64, subsec_nanos: u32) -> (e: Elapsed)
        requires
            subsec_nanos < 1_000_000_000,
        ensures
            e.nanos == secs * 1_000_000_000 + subsec_nanos,
            e.wf(),
    {
        Elapsed { nanos: (secs as u128) * 1_000_000_000 + (subsec_nanos as u128) }
    }

    /// `Duration::as_secs`.
    pub fn as_secs(&self) -> (s: u64)
        requires
            self.wf(),
        ensures
            s == self.secs_of(),
    {
        (self.nanos / 1_000_000_000) as u64
    }

    /// `Duration::subsec_millis`.
    pub fn subsec_millis(&self) -> (m: u32)
        ensures
            m == self.subsec_millis_of(),
            m < 1000,
    {
        ((self.nanos % 1_000_000_000) / 1_000_000) as u32
    }

    /// `Duration::subsec_nanos`.
    pub fn subsec_nanos(&self) -> (n: u32)
        ensures
            n == self.nanos % 1_000_000_000,
    {
        (self.nanos % 1_000_000_000) as u32
    }

    /// `Duration::as_millis`.
    pub fn as_millis(&self) -> (m: u128)
        ensures
            m == self.nanos / 1_000_000,
    {
        self.nanos / 1_000_000
    }

    /// The sum of two durations (`Duration + Duration`, which panics when the
    /// sum leaves the range).
    pub fn plus(&self, other: &Elapsed) -> (e: Elapsed)
        requires
            self.nanos + other.nanos <= max_elapsed_nanos(),
        ensures
            e.nanos == self.nanos + other.nanos,
            e.wf(),
    {
        Elapsed { nanos: self.nanos + other.nanos }
    }

    /// `Duration / u32`: the nanoseconds divided and rounded down.
    pub fn div_by(&self, n: u32) -> (e: Elapsed)
        requires
            n > 0,
            self.wf(),
        ensures
            e.nanos == self.nanos as int / (n as int),
            e.wf(),
    {
        Elapsed { nanos: self.nanos / (n as u128) }
    }

    /// `Duration * u32` (which panics when the product leaves the range).
    pub fn times(&self, n: u32) -> (e: Elapsed)
        requires
            self.nanos * n <= max_elapsed_nanos(),
        ensures
            e.nanos == self.nanos * n,
            e.wf(),
    {
        proof {
            assert(self.nanos * n <= max_elapsed_nanos());
        }
        Elapsed { nanos: self.nanos * (n as u128) }
    }
}

/// A JSON number, held as serde_json holds it: a non-negative integer, a
/// negative integer, or a float (kept as the text that serde_json prints
/// for it).
#[derive(Clone, Debug, PartialEq, Eq)]
pub enum JsonNumber {
    /// A non-negative integer.
    PosInt(u64),
    /// A negative integer.
    NegInt(i64),
    /// A float, as serde_json renders it.
    Float(String),
}

/// A JSON value. Objects list their entries in iteration order.
#[derive(Debug)]
pub enum JsonValue {
    /// `null`.
    Null,
    /// `true` or `false`.
    Bool(bool),
    /// A number.
    Number(JsonNumber),
    /// A string.
    String(String),
    /// An array.
    Array(Vec<JsonValue>),
    /// An object, as `(key, value)` entries in iteration order.
    Object(Vec<(String, JsonValue)>),
}

/// The mathematical content of a JSON value.
pub enum JsonView {
    /// `null`.
    Null,
    /// A boolean.
    Bool(bool),
    /// A number.
    Number(JsonNumber),
    /// A string's characters.
    Str(Seq<char>),
    /// An array's items.
    Array(Seq<JsonView>),
    /// An object's entries in iteration order.
    Object(Seq<(Seq<char>, JsonView)>),
}

/// The content of a JSON value.
pub open spec fn jview(v: JsonValue) -> JsonView
    decreases v, 0int,
{
    match v {
        JsonValue::Null => JsonView::Null,
        JsonValue::Bool(b) => JsonView::Bool(b),
        JsonValue::Number(n) => JsonView::Number(n),
        JsonValue::String(s) => JsonView::Str(s@),
        JsonValue::Array(items) => JsonView::Array(jview_items(items@, items@.len() as int)),
        JsonValue::Object(entries) => JsonView::Object(jview_entries(entries@, entries@.len() as int)),
    }
}

/// The content of the first `k` items.
pub open spec fn jview_items(s: Seq<JsonValue>, k: int) -> Seq<JsonView>
    decreases s, k,
{
    if k <= 0 || k > s.len() {
        Seq::empty()
    } else {
        jview_items(s, k - 1).push(jview(s[k - 1]))
    }
}

/// The content of the first `k` entries.
pub open spec fn jview_entries(s: Seq<(String, JsonValue)>, k: int) -> Seq<(Seq<char>, JsonView)>
    decreases s, k,
{
    if k <= 0 || k > s.len() {
        Seq::empty()
    } else {
        jview_entries(s, k - 1).push((s[k - 1].0@, jview(s[k - 1].1)))
    }
}

/// A copy of a JSON number.
pub fn copy_number(n: &JsonNumber) -> (r: JsonNumber)
    ensures
        r == *n,
{
    match n {
        JsonNumber::PosInt(u) => JsonNumber::PosInt(*u),
        JsonNumber::NegInt(i) => JsonNumber::NegInt(*i),
        JsonNumber::Float(t) => JsonNumber::Float(t.clone()),
    }
}

/// The content of a prefix does not change when an item is added after it.
pub proof fn lemma_items_prefix(a: Seq<JsonValue>, b: Seq<JsonValue>, k: int)
    requires
        0 <= k <= a.len(),
        b.len() == a.len() + 1,
        forall|i: int| 0 <= i < a.len() ==> b[i] == a[i],
    ensures
        jview_items(b, k) == jview_items(a, k),
    decreases k,
{
    if k > 0 {
        lemma_items_prefix(a, b, k - 1);
    }
}

/// The content of a prefix does not change when an entry is added after it.
pub proof fn lemma_entries_prefix(a: Seq<(String, JsonValue)>, b: Seq<(String, JsonValue)>, k: int)
    requires
        0 <= k <= a.len(),
        b.len() == a.len() + 1,
        forall|i: int| 0 <= i < a.len() ==> b[i] == a[i],
    ensures
        jview_entries(b, k) == jview_entries(a, k),
    decreases k,
{
    if k > 0 {
        lemma_entries_prefix(a, b, k - 1);
    }
}

/// The content of the first `k` items has length `k`, and item `i` is the
/// content of item `i`.
pub proof fn lemma_jview_items_index(s: Seq<JsonValue>, k: int, i: int)
    requires
        0 <= i < k <= s.len(),
    ensures
        jview_items(s, k).len() == k,
        jview_items(s, k)[i] == jview(s[i]),
    decreases k,
{
    lemma_jview_items_len(s, k - 1);
    if i < k - 1 {
        lemma_jview_items_index(s, k - 1, i);
    }
}

pub proof fn lemma_jview_items_len(s: Seq<JsonValue>, k: int)
    requires
        0 <= k <= s.len(),
    ensures
        jview_items(s, k).len() == k,
    decreases k,
{
    if k > 0 {
        lemma_jview_items_len(s, k - 1);
    }
}

pub proof fn lemma_jview_entries_len(s: Seq<(String, JsonValue)>, k: int)
    requires
        0 <= k <= s.len(),
    ensures
        jview_entries(s, k).len() == k,
    decreases k,
{
    if k > 0 {
        lemma_jview_entries_len(s, k - 1);
    }
}

/// Entry `i` of the content of the first `k` entries is the content of
/// entry `i`.
pub proof fn lemma_jview_entries_index(s: Seq<(String, JsonValue)>, k: int, i: int)
    requires
        0 <= i < k <= s.len(),
    ensures
        jview_entries(s, k).len() == k,
        jview_entries(s, k)[i] == (s[i].0@, jview(s[i].1)),
    decreases k,
{
    lemma_jview_entries_len(s, k - 1);
    if i < k - 1 {
        lemma_jview_entries_index(s, k - 1, i);
    }
}

/// A deep copy of a JSON value.
#[verifier::loop_isolation(false)]
pub fn copy_json(v: &JsonValue) -> (r: JsonValue)
    ensures
        jview(r) == jview(*v),
    decreases v,
{
    match v {
        JsonValue::Null => JsonValue::Null,
        JsonValue::Bool(b) => JsonValue::Bool(*b),
        JsonValue::Number(n) => JsonValue::Number(copy_number(n)),
        JsonValue::String(s) => JsonValue::String(s.clone()),
        JsonValue::Array(items) => {
            let mut out: Vec<JsonValue> = Vec::new();
            let mut i: usize = 0;
            while i < items.len()
                invariant
                    i <= items.len(),
                    out@.len() == i,
                    jview_items(out@, i as int) == jview_items(items@, i as int),
                decreases items.len() - i,
            {
                proof {
                    assert(decreases_to!(items => items[i as int]));
                }
                let c = copy_json(&items[i]);
                let ghost prev = out@;
                out.push(c);
                proof {
                    lemma_items_prefix(prev, out@, i as int);
                }
                i = i + 1;
            }
            JsonValue::Array(out)
        },
        JsonValue::Object(entries) => {
            let mut out: Vec<(String, JsonValue)> = Vec::new();
            let mut i: usize = 0;
            while i < entries.len()
                invariant
                    i <= entries.len(),
                    out@.len() == i,
                    jview_entries(out@, i as int) == jview_entries(entries@, i as int),
                decreases entries.len() - i,
            {
                let k = entries[i].0.clone();
                proof {
                    assert(decreases_to!(entries => entries[i as int]));
                }
                let val = copy_json(&entries[i].1);
                let ghost prev = out@;
                out.push((k, val));
                proof {
                    lemma_entries_prefix(prev, out@, i as int);
                }
                i = i + 1;
            }
            JsonValue::Object(out)
        },
    }
}

/// An integer as a JSON number: non-negative ones as `PosInt`, negative
/// ones as `NegInt`, as serde_json converts an `i64`.
pub open spec fn int_number(n: i64) -> JsonNumber {
    if n >= 0 {
        JsonNumber::PosInt(n as u64)
    } else {
        JsonNumber::NegInt(n)
    }
}

impl JsonValue {
    /// The JSON number for an integer.
    pub fn from_i64(n: i64) -> (v: JsonValue)
        ensures
            v == JsonValue::Number(int_number(n)),
    {
        if n >= 0 {
            JsonValue::Number(JsonNumber::PosInt(n as u64))
        } else {
            JsonValue::Number(JsonNumber::NegInt(n))
        }
    }

    /// `Value::as_bool`.
    pub open spec fn spec_as_bool(&self) -> Option<bool> {
        match self {
            JsonValue::Bool(b) => Some(*b),
            _ => None,
        }
    }

    /// `Value::as_i64`: an integer that fits in `i64`.
    pub open spec fn spec_as_i64(&self) -> Option<i64> {
        match self {
            JsonValue::Number(JsonNumber::PosInt(u)) => if *u <= i64::MAX {
                Some(*u as i64)
            } else {
                None
            },
            JsonValue::Number(JsonNumber::NegInt(i)) => Some(*i),
            _ => None,
        }
    }

    /// `Value::as_str`, as the characters of the string.
    pub open spec fn spec_as_str(&self) -> Option<Seq<char>> {
        match self {
            JsonValue::String(s) => Some(s@),
            _ => None,
        }
    }

    /// `Value::as_bool`.
    pub fn as_bool(&self) -> (r: Option<bool>)
        ensures
            r == self.spec_as_bool(),
    {
        match self {
            JsonValue::Bool(b) => Some(*b),
            _ => None,
        }
    }

    /// `Value::as_i64`.
    pub fn as_i64(&self) -> (r: Option<i64>)
        ensures
            r == self.spec_as_i64(),
    {
        match self {
            JsonValue::Number(JsonNumber::PosInt(u)) => if *u <= 9223372036854775807u64 {
                Some(*u as i64)
            } else {
                None
            },
            JsonValue::Number(JsonNumber::NegInt(i)) => Some(*i),
            _ => None,
        }
    }

    /// `Value::as_str`.
    pub fn as_str(&self) -> (r: Option<&str>)
        ensures
            match r {
                Some(s) => self.spec_as_str() == Some(s@),
                None => self.spec_as_str().is_none(),
            },
    {
        match self {
            JsonValue::String(s) => Some(s.as_str()),
            _ => None,
        }
    }

    /// `Value::is_null`.
    pub fn is_null(&self) -> (b: bool)
        ensures
            b == (*self is Null),
    {
        match self {
            JsonValue::Null => true,
            _ => false,
        }
    }
}

/// What a module reports for one task on one host.
#[derive(Debug)]
pub struct ModuleResult {
    /// The task succeeded.
    pub success: bool,
    /// The task changed something.
    pub changed: bool,
    /// A human-readable message.
    pub message: String,
    /// The task was skipped.
    pub skipped: bool,
    /// Data the module returned.
    pub data: Option<JsonValue>,
    /// Warnings the module emitted.
    pub warnings: Vec<String>,
}

/// The result of running one task on one host.
#[derive(Debug)]
pub struct ExecutionResult {
    /// The host the task ran on.
    pub host: String,
    /// The task's name.
    pub task_name: String,
    /// What the module reported.
    pub result: ModuleResult,
    /// How long the task took.
    pub duration: Elapsed,
    /// Handlers the task notified.
    pub notify: Vec<String>,
}

/// How a task result is counted by most plugins.
#[derive(Clone, Copy, Debug, PartialEq, Eq)]
pub enum TaskOutcome {
    /// The task was skipped.
    Skipped,
    /// The task failed.
    Failed,
    /// The task succeeded and changed something.
    Changed,
    /// The task succeeded without change.
    Unchanged,
}

/// The classification used by the plugins: skipped first, then failure,
/// then change.
pub open spec fn outcome_of(r: ModuleResult) -> TaskOutcome {
    if r.skipped {
        TaskOutcome::Skipped
    } else if !r.success {
        TaskOutcome::Failed
    } else if r.changed {
        TaskOutcome::Changed
    } else {
        TaskOutcome::Unchanged
    }
}

/// A result is skipped when its skip flag is set, else failed when it did
/// not succeed, else changed when it changed something, else unchanged.
pub proof fn lemma_outcome_of(r: ModuleResult)
    ensures
        r.skipped ==> outcome_of(r) == TaskOutcome::Skipped,
        !r.skipped && !r.success ==> outcome_of(r) == TaskOutcome::Failed,
        !r.skipped && r.success && r.changed ==> outcome_of(r) == TaskOutcome::Changed,
        !r.skipped && r.success && !r.changed ==> outcome_of(r) == TaskOutcome::Unchanged,
{
}

/// Classifies a module result.
pub fn classify(r: &ModuleResult) -> (o: TaskOutcome)
    ensures
        o == outcome_of(*r),
{
    if r.skipped {
        TaskOutcome::Skipped
    } else if !r.success {
        TaskOutcome::Failed
    } else if r.changed {
        TaskOutcome::Changed
    } else {
        TaskOutcome::Unchanged
    }
}

impl ModuleResult {
    /// A successful result without change (`ModuleResult::ok`).
    pub fn ok(message: &str) -> (r: ModuleResult)
        ensures
            r.success,
            !r.changed,
            !r.skipped,
            r.message@ == message@,
            r.data.is_none(),
            r.warnings@.len() == 0,
    {
        ModuleResult {
            success: true,
            changed: false,
            message: message.to_owned(),
            skipped: false,
            data: None,
            warnings: Vec::new(),
        }
    }
}

/// One more, as `u32` arithmetic wraps around.
pub open spec fn wrap_inc(x: u32) -> u32 {
    if x == u32::MAX {
        0
    } else {
        (x + 1) as u32
    }
}

/// One more, wrapping around at the top of `u32`.
pub fn inc(x: u32) -> (r: u32)
    ensures
        r == wrap_inc(x),
{
    x.wrapping_add(1)
}


// ---------------------------------------------------------------------------
// Tables as objects
// ---------------------------------------------------------------------------

/// The entries of a table of values, in its order, as an object's content.
pub open spec fn table_entries(t: HostTable<JsonValue>) -> Seq<(Seq<char>, JsonView)> {
    Seq::new(t.names().len(), |i: int| (t.names()[i], jview(t@[t.names()[i]])))
}

/// A table of values as one object, in the table's order.
pub fn table_object(t: &HostTable<JsonValue>) -> (r: JsonValue)
    requires
        t.wf(),
    ensures
        jview(r) == JsonView::Object(table_entries(*t)),
{
    let mut es: Vec<(String, JsonValue)> = Vec::new();
    let n = t.len();
    let mut i: usize = 0;
    while i < n
        invariant
            i <= n,
            n == t.names().len(),
            t.wf(),
            jview_entries(es@, es@.len() as int) == table_entries(*t).subrange(0, i as int),
        decreases n - i,
    {
        let (k, v) = t.entry_ref(i);
        let ghost a = es@;
        es.push((k.clone(), copy_json(v)));
        proof {
            lemma_entries_prefix(a, es@, a.len() as int);
            assert(table_entries(*t).subrange(0, i + 1) =~= table_entries(*t).subrange(0, i as int).push((k@, jview(*v))));
        }
        i = i + 1;
    }
    proof {
        assert(table_entries(*t).subrange(0, i as int) =~= table_entries(*t));
    }
    JsonValue::Object(es)
}

// ---------------------------------------------------------------------------
// JSON text
// ---------------------------------------------------------------------------

/// serde_json's value type.
#[verifier::external_type_specification]
#[verifier::external_body]
pub struct ExSerdeValue(serde_json::Value);

/// The same value as serde_json holds it, variant for variant (a float
/// from the text that serde_json printed for it). Nothing is claimed: the
/// result is opaque and only handed to serde_json's printers below.
#[verifier::external_body]
fn serde_value(v: &JsonValue) -> serde_json::Value {
    match v {
        JsonValue::Null => serde_json::Value::Null,
        JsonValue::Bool(b) => serde_json::Value::Bool(*b),
        JsonValue::Number(JsonNumber::PosInt(u)) => serde_json::Value::from(*u),
        JsonValue::Number(JsonNumber::NegInt(i)) => serde_json::Value::from(*i),
        JsonValue::Number(JsonNumber::Float(t)) => t.parse().unwrap_or_default(),
        JsonValue::String(s) => serde_json::Value::String(s.clone()),
        JsonValue::Array(items) => items.iter().map(serde_value).collect(),
        JsonValue::Object(es) => es.iter().map(|(k, x)| (k.clone(), serde_value(x))).collect(),
    }
}

/// The text `serde_json::to_string_pretty` prints for a value.
pub uninterp spec fn pretty_text(v: JsonView) -> Seq<char>;

/// The text `serde_json::to_string` prints for a value.
pub uninterp spec fn compact_text(v: JsonView) -> Seq<char>;

/// A value pretty-printed by `serde_json::to_string_pretty` (two-space
/// indentation). Claimed: the text depends on the value's content alone;
/// what the text is, is left to serde_json. Printing a `Value` cannot fail,
/// so the empty fallback is never taken.
#[verifier::external_body]
pub(crate) fn pretty_json(v: &JsonValue) -> (s: String)
    ensures
        s@ == pretty_text(jview(*v)),
{
    serde_json::to_string_pretty(&serde_value(v)).unwrap_or_default()
}

/// A value printed on one line by `serde_json::to_string`. Claimed: the
/// text depends on the value's content alone; what the text is, is left to
/// serde_json.
#[verifier::external_body]
pub(crate) fn compact_json(v: &JsonValue) -> (s: String)
    ensures
        s@ == compact_text(jview(*v)),
{
    serde_json::to_string(&serde_value(v)).unwrap_or_default()
}

} // verus!
