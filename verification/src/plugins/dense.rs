//! The dense plugin: compact output for large inventories. Hosts are grouped
//! by result, numbered hosts are folded into ranges, and the recap details
//! only the hosts that failed.
use vstd::prelude::*;
use crate::style::{
    append_lines, blank, bold_style, color_style, line_view, lines_view, plain_style, push_line, push_owned,
    push_span, single, text_of, Color, Span, SpanView, Style,
};
use crate::table::{views, HostTable};
use crate::text::{
    byte_len, chars_of, lemma_lex_irreflexive, lemma_lex_total, lemma_lex_transitive, lex_le, lex_lt, str_lt, dec, dec_string, dec_zero_padded, join_seq, join_strings, push_dec,
    push_dec_zero_padded, push_str, repeat_char, repeat_string, sat_sub, string_of_chars, utf8_len,
};
use crate::types::{inc, wrap_inc, ExecutionResult};
use crate::plugins::actionable::opt_chars;

verus! {

// ---------------------------------------------------------------------------
// Configuration
// ---------------------------------------------------------------------------

/// Configuration for the dense callback.
#[derive(Clone, Copy, Debug, PartialEq, Eq, Structural)]
pub struct DenseConfig {
    /// Hosts shown per line before wrapping.
    pub max_hosts_per_line: usize,
    /// Above this many hosts only their number is shown.
    pub host_count_threshold: usize,
    /// Colored output.
    pub use_colors: bool,
    /// Verbosity (0 normal, more shows more).
    pub verbosity: u8,
}

impl Default for DenseConfig {
    fn default() -> (c: Self)
        ensures
            c.max_hosts_per_line == 6,
            c.host_count_threshold == 10,
            c.use_colors,
            c.verbosity == 0,
    {
        DenseConfig { max_hosts_per_line: 6, host_count_threshold: 10, use_colors: true, verbosity: 0 }
    }
}

impl DenseConfig {
    /// The default configuration, as a value.
    pub open spec fn default_spec() -> DenseConfig {
        DenseConfig { max_hosts_per_line: 6, host_count_threshold: 10, use_colors: true, verbosity: 0 }
    }

    /// The default configuration.
    pub fn new() -> (c: Self)
        ensures
            c.max_hosts_per_line == 6,
            c.host_count_threshold == 10,
            c.use_colors,
            c.verbosity == 0,
    {
        Self::default()
    }

    /// Sets the hosts shown per line.
    pub fn with_max_hosts_per_line(self, n: usize) -> (c: Self)
        ensures
            c == (DenseConfig { max_hosts_per_line: n, ..self }),
    {
        DenseConfig { max_hosts_per_line: n, ..self }
    }

    /// Sets the host count above which only the number is shown.
    pub fn with_host_count_threshold(self, n: usize) -> (c: Self)
        ensures
            c == (DenseConfig { host_count_threshold: n, ..self }),
    {
        DenseConfig { host_count_threshold: n, ..self }
    }

    /// Turns colors on or off.
    pub fn with_colors(self, enabled: bool) -> (c: Self)
        ensures
            c == (DenseConfig { use_colors: enabled, ..self }),
    {
        DenseConfig { use_colors: enabled, ..self }
    }

    /// Sets the verbosity.
    pub fn with_verbosity(self, level: u8) -> (c: Self)
        ensures
            c == (DenseConfig { verbosity: level, ..self }),
    {
        DenseConfig { verbosity: level, ..self }
    }
}

// ---------------------------------------------------------------------------
// Result categories
// ---------------------------------------------------------------------------

/// How a task ended on a host, for grouping.
#[derive(Clone, Copy, Debug, PartialEq, Eq, Structural, Hash)]
pub enum ResultCategory {
    Succeeded,
    Changed,
    Skipped,
    Failed,
    Unreachable,
}

/// The category of a result: failure first, then skip, then change.
pub open spec fn category_of(success: bool, skipped: bool, changed: bool) -> ResultCategory {
    if !success {
        ResultCategory::Failed
    } else if skipped {
        ResultCategory::Skipped
    } else if changed {
        ResultCategory::Changed
    } else {
        ResultCategory::Succeeded
    }
}

/// The label of a category.
pub open spec fn label_of(c: ResultCategory) -> Seq<char> {
    match c {
        ResultCategory::Succeeded => "ok"@,
        ResultCategory::Changed => "changed"@,
        ResultCategory::Skipped => "skipping"@,
        ResultCategory::Failed => "failed"@,
        ResultCategory::Unreachable => "unreachable"@,
    }
}

/// A task that did not succeed is grouped under `failed`, else a skipped
/// one under `skipping`, else a changed one under `changed`, else under
/// `ok`.
pub proof fn lemma_category_label(success: bool, skipped: bool, changed: bool)
    ensures
        !success ==> label_of(category_of(success, skipped, changed)) == "failed"@,
        success && skipped ==> label_of(category_of(success, skipped, changed)) == "skipping"@,
        success && !skipped && changed ==> label_of(category_of(success, skipped, changed)) == "changed"@,
        success && !skipped && !changed ==> label_of(category_of(success, skipped, changed)) == "ok"@,
{
}

/// Where a category is shown: failures first.
pub open spec fn order_of(c: ResultCategory) -> nat {
    match c {
        ResultCategory::Failed => 0,
        ResultCategory::Unreachable => 1,
        ResultCategory::Changed => 2,
        ResultCategory::Succeeded => 3,
        ResultCategory::Skipped => 4,
    }
}

/// The category shown at position `i`.
pub open spec fn category_at(i: nat) -> ResultCategory {
    if i == 0 {
        ResultCategory::Failed
    } else if i == 1 {
        ResultCategory::Unreachable
    } else if i == 2 {
        ResultCategory::Changed
    } else if i == 3 {
        ResultCategory::Succeeded
    } else {
        ResultCategory::Skipped
    }
}

/// The color of a category's label.
pub open spec fn category_color(c: ResultCategory) -> Color {
    match c {
        ResultCategory::Succeeded => Color::Green,
        ResultCategory::Changed => Color::Yellow,
        ResultCategory::Skipped => Color::Cyan,
        ResultCategory::Failed => Color::Red,
        ResultCategory::Unreachable => Color::Red,
    }
}

impl ResultCategory {
    /// The category of a task result.
    pub fn from_execution_result(result: &ExecutionResult) -> (c: Self)
        ensures
            c == category_of(result.result.success, result.result.skipped, result.result.changed),
    {
        if !result.result.success {
            ResultCategory::Failed
        } else if result.result.skipped {
            ResultCategory::Skipped
        } else if result.result.changed {
            ResultCategory::Changed
        } else {
            ResultCategory::Succeeded
        }
    }

    /// The label shown for the category.
    pub fn label(&self) -> (s: &'static str)
        ensures
            s@ == label_of(*self),
    {
        match self {
            ResultCategory::Succeeded => "ok",
            ResultCategory::Changed => "changed",
            ResultCategory::Skipped => "skipping",
            ResultCategory::Failed => "failed",
            ResultCategory::Unreachable => "unreachable",
        }
    }

    /// Where the category is shown, failures first.
    pub fn display_order(&self) -> (n: u8)
        ensures
            n == order_of(*self),
    {
        match self {
            ResultCategory::Failed => 0,
            ResultCategory::Unreachable => 1,
            ResultCategory::Changed => 2,
            ResultCategory::Succeeded => 3,
            ResultCategory::Skipped => 4,
        }
    }
}

/// A result waiting to be shown: its host, and the message of a failure.
#[derive(Clone, Debug)]
pub struct AccumulatedResult {
    pub host: String,
    pub msg: Option<String>,
}

/// Task counts for one host.
#[derive(Clone, Copy, Debug, PartialEq, Eq, Structural)]
pub struct HostStats {
    pub ok: u32,
    pub changed: u32,
    pub failed: u32,
    pub skipped: u32,
    pub unreachable: u32,
}

/// A host with nothing counted.
pub open spec fn zero_stats() -> HostStats {
    HostStats { ok: 0, changed: 0, failed: 0, skipped: 0, unreachable: 0 }
}

/// Something failed or was unreachable.
pub open spec fn stats_failed(s: HostStats) -> bool {
    s.failed > 0 || s.unreachable > 0
}

impl HostStats {
    /// Whether something failed or was unreachable.
    pub fn has_failures(&self) -> (b: bool)
        ensures
            b == stats_failed(*self),
    {
        self.failed > 0 || self.unreachable > 0
    }

    /// Whether something changed.
    pub fn has_changes(&self) -> (b: bool)
        ensures
            b == (self.changed > 0),
    {
        self.changed > 0
    }
}

// ---------------------------------------------------------------------------
// Host names and numbers
// ---------------------------------------------------------------------------

/// An ASCII digit.
pub open spec fn is_digit(c: char) -> bool {
    '0' <= c <= '9'
}

/// The number of ASCII digits at the end of `s`.
pub open spec fn trailing_digits(s: Seq<char>) -> nat
    decreases s.len(),
{
    if s.len() == 0 || !is_digit(s.last()) {
        0
    } else {
        1 + trailing_digits(s.drop_last())
    }
}

/// The value of a string of decimal digits.
pub open spec fn digits_value(s: Seq<char>) -> int
    decreases s.len(),
{
    if s.len() == 0 {
        0
    } else {
        10 * digits_value(s.drop_last()) + (s.last() as int - '0' as int)
    }
}

/// A host name's prefix and trailing number: the name must have both a
/// non-empty prefix and trailing digits whose value fits in `u32`.
pub open spec fn host_number(h: Seq<char>) -> Option<(Seq<char>, u32)> {
    let k = trailing_digits(h);
    let digits = h.subrange(h.len() - k, h.len() as int);
    if k > 0 && k < h.len() && digits_value(digits) <= u32::MAX {
        Some((h.subrange(0, h.len() - k), digits_value(digits) as u32))
    } else {
        None
    }
}

/// The trailing digits of `s` are digits, and the character before them is
/// not.
pub proof fn lemma_trailing_digits(s: Seq<char>)
    ensures
        trailing_digits(s) <= s.len(),
        forall|i: int| s.len() - trailing_digits(s) <= i < s.len() ==> is_digit(#[trigger] s[i]),
        trailing_digits(s) < s.len() ==> !is_digit(s[s.len() - trailing_digits(s) - 1]),
    decreases s.len(),
{
    if s.len() > 0 && is_digit(s.last()) {
        lemma_trailing_digits(s.drop_last());
        assert forall|i: int| s.len() - trailing_digits(s) <= i < s.len() implies is_digit(#[trigger] s[i]) by {
            if i < s.len() - 1 {
                assert(s[i] == s.drop_last()[i]);
            }
        }
        if trailing_digits(s) < s.len() {
            assert(s[s.len() - trailing_digits(s) - 1] == s.drop_last()[s.len() - trailing_digits(s) - 1]);
        }
    }
}

/// A string of digits is worth at least as much as each of its prefixes.
pub proof fn lemma_digits_value_mono(s: Seq<char>, j: int)
    requires
        0 <= j <= s.len(),
        forall|i: int| 0 <= i < s.len() ==> is_digit(#[trigger] s[i]),
    ensures
        0 <= digits_value(s.subrange(0, j)) <= digits_value(s),
    decreases s.len(),
{
    if j < s.len() {
        assert forall|i: int| 0 <= i < s.drop_last().len() implies is_digit(#[trigger] s.drop_last()[i]) by {
            assert(s.drop_last()[i] == s[i]);
        }
        lemma_digits_value_mono(s.drop_last(), j);
        assert(s.drop_last().subrange(0, j) =~= s.subrange(0, j));
        assert(is_digit(s.last()));
    } else {
        assert(s.subrange(0, j) =~= s);
        lemma_digits_value_nonneg(s);
    }
}

/// A string of digits has a non-negative value.
pub proof fn lemma_digits_value_nonneg(s: Seq<char>)
    requires
        forall|i: int| 0 <= i < s.len() ==> is_digit(#[trigger] s[i]),
    ensures
        digits_value(s) >= 0,
    decreases s.len(),
{
    if s.len() > 0 {
        assert forall|i: int| 0 <= i < s.drop_last().len() implies is_digit(#[trigger] s.drop_last()[i]) by {
            assert(s.drop_last()[i] == s[i]);
        }
        lemma_digits_value_nonneg(s.drop_last());
        assert(is_digit(s.last()));
    }
}

/// The number of trailing digits of a name.
fn count_trailing_digits(v: &Vec<char>) -> (k: usize)
    ensures
        k == trailing_digits(v@),
{
    let mut k: usize = 0;
    proof {
        assert(v@.subrange(0, v@.len() as int) =~= v@);
    }
    while k < v.len() && '0' <= v[v.len() - 1 - k] && v[v.len() - 1 - k] <= '9'
        invariant
            k <= v@.len(),
            trailing_digits(v@) == k + trailing_digits(v@.subrange(0, v@.len() - k)),
        decreases v.len() - k,
    {
        proof {
            let t = v@.subrange(0, v@.len() - k);
            assert(t.last() == v@[v@.len() - 1 - k]);
            assert(t.drop_last() =~= v@.subrange(0, v@.len() - k - 1));
        }
        k = k + 1;
    }
    proof {
        let t = v@.subrange(0, v@.len() - k);
        if k < v@.len() {
            assert(t.last() == v@[v@.len() - 1 - k]);
        }
    }
    k
}

/// The number of digits at the end of a host name.
pub fn number_width(host: &str) -> (n: usize)
    ensures
        n == trailing_digits(host@),
{
    let v = chars_of(host);
    count_trailing_digits(&v)
}

/// A host name's prefix and trailing number (`web01` gives `web` and 1), if
/// it has a non-empty prefix and a trailing number that fits in `u32`.
pub fn extract_host_prefix_and_number(host: &str) -> (r: Option<(String, u32)>)
    ensures
        match r {
            Some((p, n)) => host_number(host@) == Some((p@, n)),
            None => host_number(host@) is None,
        },
{
    let v = chars_of(host);
    let k = count_trailing_digits(&v);
    let len = v.len();
    if k == 0 || k >= len {
        return None;
    }
    let start = len - k;
    let ghost digits = v@.subrange(start as int, len as int);
    proof {
        lemma_trailing_digits(v@);
        assert forall|i: int| 0 <= i < digits.len() implies is_digit(#[trigger] digits[i]) by {
            assert(digits[i] == v@[start + i]);
        }
        assert(digits.subrange(0, 0) =~= Seq::<char>::empty());
    }
    let mut value: u64 = 0;
    let mut j: usize = start;
    while j < len
        invariant
            start <= j <= len,
            len == v@.len(),
            v@ == host@,
            k == trailing_digits(host@),
            start == len - k,
            digits == v@.subrange(start as int, len as int),
            forall|i: int| 0 <= i < digits.len() ==> is_digit(#[trigger] digits[i]),
            value == digits_value(digits.subrange(0, j - start)),
            value <= u32::MAX,
        decreases len - j,
    {
        let c = v[j];
        proof {
            assert(digits[j - start] == c);
            assert(is_digit(c));
        }
        let d = (c as u32 - '0' as u32) as u64;
        proof {
            let t = digits.subrange(0, j - start + 1);
            assert(t.drop_last() =~= digits.subrange(0, j - start));
            assert(t.last() == c);
            assert(d == c as int - '0' as int);
        }
        value = value * 10 + d;
        proof {
            assert(value == digits_value(digits.subrange(0, j - start + 1)));
        }
        if value > 4294967295u64 {
            proof {
                lemma_digits_value_mono(digits, j - start + 1);
                assert(digits_value(digits) > u32::MAX);
                assert(v@ == host@);
                assert(host@.subrange(host@.len() - k, host@.len() as int) == digits);
            }
            return None;
        }
        j = j + 1;
    }
    proof {
        assert(digits.subrange(0, len - start) =~= digits);
    }
    let prefix = string_of_chars(&v, 0, start);
    Some((prefix, value as u32))
}

// ---------------------------------------------------------------------------
// Host lists
// ---------------------------------------------------------------------------

/// The lines of a host list: `m` hosts per line, each line joined with
/// `, `.
pub open spec fn chunk_texts(s: Seq<Seq<char>>, m: nat) -> Seq<Seq<char>>
    decreases s.len(),
{
    if s.len() == 0 || m == 0 {
        Seq::empty()
    } else if s.len() <= m {
        seq![join_seq(s, ", "@)]
    } else {
        seq![join_seq(s.subrange(0, m as int), ", "@)] + chunk_texts(s.subrange(m as int, s.len() as int), m)
    }
}

/// A host list wrapped after `m` hosts per line.
pub open spec fn host_list_text(s: Seq<Seq<char>>, m: nat) -> Seq<char> {
    join_seq(chunk_texts(s, m), ",\n          "@)
}

/// Joins hosts with `, `, at most `max_per_line` to a line.
pub fn format_host_list(hosts: &Vec<String>, max_per_line: usize) -> (s: String)
    requires
        hosts@.len() == 0 || max_per_line > 0,
    ensures
        s@ == host_list_text(views(hosts@), max_per_line as nat),
{
    let ghost hs = views(hosts@);
    let n = hosts.len();
    if n == 0 {
        return String::new();
    }
    if n <= max_per_line {
        let s = join_strings(hosts, ", ");
        proof {
            assert(chunk_texts(hs, max_per_line as nat) =~= seq![join_seq(hs, ", "@)]);
        }
        return s;
    }
    let mut lines: Vec<String> = Vec::new();
    let mut i: usize = 0;
    proof {
        assert(hs.subrange(0, n as int) =~= hs);
    }
    while i < n
        invariant
            0 < max_per_line,
            n == hosts@.len(),
            hs == views(hosts@),
            i <= n,
            chunk_texts(hs, max_per_line as nat) == views(lines@) + chunk_texts(hs.subrange(i as int, n as int), max_per_line as nat),
        decreases n - i,
    {
        let end: usize = if n - i <= max_per_line { n } else { i + max_per_line };
        let mut chunk: Vec<String> = Vec::new();
        let mut j: usize = i;
        while j < end
            invariant
                i <= j <= end <= n,
                n == hosts@.len(),
                hs == views(hosts@),
                views(chunk@) == hs.subrange(i as int, j as int),
            decreases end - j,
        {
            let h = hosts[j].clone();
            let ghost before = views(chunk@);
            chunk.push(h);
            proof {
                assert(views(chunk@) =~= before.push(hosts@[j as int]@));
                assert(views(chunk@) =~= hs.subrange(i as int, j + 1));
            }
            j = j + 1;
        }
        let text = join_strings(&chunk, ", ");
        let ghost before = views(lines@);
        lines.push(text);
        proof {
            let rest = hs.subrange(i as int, n as int);
            assert(views(lines@) =~= before.push(join_seq(hs.subrange(i as int, end as int), ", "@)));
            if n - i <= max_per_line {
                assert(hs.subrange(i as int, end as int) =~= rest);
                assert(chunk_texts(rest, max_per_line as nat) =~= seq![join_seq(rest, ", "@)]);
                assert(hs.subrange(end as int, n as int) =~= Seq::<Seq<char>>::empty());
            } else {
                assert(rest.subrange(0, max_per_line as int) =~= hs.subrange(i as int, end as int));
                assert(rest.subrange(max_per_line as int, rest.len() as int) =~= hs.subrange(end as int, n as int));
            }
            assert(views(lines@) + chunk_texts(hs.subrange(end as int, n as int), max_per_line as nat) =~= before
                + chunk_texts(rest, max_per_line as nat));
        }
        i = end;
    }
    proof {
        assert(hs.subrange(i as int, n as int) =~= Seq::<Seq<char>>::empty());
        assert(views(lines@) =~= chunk_texts(hs, max_per_line as nat));
    }
    join_strings(&lines, ",\n          ")
}


// ---------------------------------------------------------------------------
// Stable selection order
// ---------------------------------------------------------------------------

/// `i` is the first position of a least element of `s` under `le`.
pub open spec fn is_first_min<T>(s: Seq<T>, le: spec_fn(T, T) -> bool, i: int) -> bool {
    &&& 0 <= i < s.len()
    &&& forall|j: int| 0 <= j < s.len() ==> #[trigger] le(s[i], s[j])
    &&& forall|j: int| 0 <= j < i ==> !#[trigger] le(s[j], s[i])
}

/// `s` ordered by `le`, elements that compare equal keeping their order:
/// the first least element, then the rest ordered the same way.
pub open spec fn stable_sort<T>(s: Seq<T>, le: spec_fn(T, T) -> bool) -> Seq<T>
    decreases s.len(),
{
    if s.len() == 0 {
        Seq::empty()
    } else if exists|i: int| is_first_min(s, le, i) {
        let i = choose|i: int| is_first_min(s, le, i);
        seq![s[i]] + stable_sort(s.remove(i), le)
    } else {
        s
    }
}

/// There is at most one first least position.
pub proof fn lemma_first_min_unique<T>(s: Seq<T>, le: spec_fn(T, T) -> bool, i: int, k: int)
    requires
        is_first_min(s, le, i),
        is_first_min(s, le, k),
    ensures
        i == k,
{
    if i < k {
        assert(le(s[i], s[k]));
    } else if k < i {
        assert(le(s[k], s[i]));
    }
}

/// Sorting a sequence whose first least element is at `i` puts that
/// element first.
pub proof fn lemma_stable_sort_step<T>(s: Seq<T>, le: spec_fn(T, T) -> bool, i: int)
    requires
        is_first_min(s, le, i),
    ensures
        stable_sort(s, le) == seq![s[i]] + stable_sort(s.remove(i), le),
{
    let c = choose|c: int| is_first_min(s, le, c);
    lemma_first_min_unique(s, le, i, c);
}

/// String order.
pub open spec fn by_name() -> spec_fn(Seq<char>, Seq<char>) -> bool {
    |a: Seq<char>, b: Seq<char>| lex_le(a, b)
}

/// A numbered host: its name, its prefix and its number.
pub type NumberedView = (Seq<char>, Seq<char>, u32);

/// Order by number.
pub open spec fn by_number() -> spec_fn(NumberedView, NumberedView) -> bool {
    |a: NumberedView, b: NumberedView| a.2 <= b.2
}

/// Order by prefix.
pub open spec fn by_prefix() -> spec_fn(NumberedView, NumberedView) -> bool {
    |a: NumberedView, b: NumberedView| lex_le(a.1, b.1)
}

/// `lex_le` is transitive.
pub proof fn lemma_lex_le_transitive(a: Seq<char>, b: Seq<char>, c: Seq<char>)
    requires
        lex_le(a, b),
        lex_le(b, c),
    ensures
        lex_le(a, c),
{
    if a != b && b != c {
        lemma_lex_transitive(a, b, c);
    }
}

/// `a <= b` and `b < a` cannot both hold.
pub proof fn lemma_lex_le_lt(a: Seq<char>, b: Seq<char>)
    ensures
        !(lex_le(a, b) && lex_lt(b, a)),
{
    if lex_le(a, b) && lex_lt(b, a) {
        if a == b {
            lemma_lex_irreflexive(a);
        } else {
            lemma_lex_transitive(a, b, a);
            lemma_lex_irreflexive(a);
        }
    }
}

/// The first least name.
fn first_min_name(v: &Vec<String>) -> (b: usize)
    requires
        v@.len() > 0,
    ensures
        is_first_min(views(v@), by_name(), b as int),
{
    let ghost vs = views(v@);
    let mut b: usize = 0;
    let mut i: usize = 1;
    proof {
        assert(by_name()(vs[0], vs[0]));
    }
    while i < v.len()
        invariant
            vs == views(v@),
            0 <= b < i <= v@.len(),
            forall|j: int| 0 <= j < i ==> #[trigger] by_name()(vs[b as int], vs[j]),
            forall|j: int| 0 <= j < b ==> !#[trigger] by_name()(vs[j], vs[b as int]),
        decreases v.len() - i,
    {
        if str_lt(v[i].as_str(), v[b].as_str()) {
            proof {
                let ob = b as int;
                assert forall|j: int| 0 <= j < i implies !#[trigger] by_name()(vs[j], vs[i as int]) by {
                    if lex_le(vs[j], vs[i as int]) {
                        assert(by_name()(vs[ob], vs[j]));
                        lemma_lex_le_transitive(vs[ob], vs[j], vs[i as int]);
                        lemma_lex_le_lt(vs[ob], vs[i as int]);
                    }
                }
                lemma_lex_irreflexive(vs[i as int]);
                assert forall|j: int| 0 <= j < i + 1 implies #[trigger] by_name()(vs[i as int], vs[j]) by {
                    if j < i {
                        assert(by_name()(vs[ob], vs[j]));
                        assert(lex_lt(vs[i as int], vs[ob]));
                        lemma_lex_le_transitive(vs[i as int], vs[ob], vs[j]);
                    }
                }
            }
            b = i;
        } else {
            proof {
                lemma_lex_total(vs[i as int], vs[b as int]);
                assert(by_name()(vs[b as int], vs[i as int]));
            }
        }
        i = i + 1;
    }
    b
}

/// Host names in `str` order.
pub fn sort_names(v: Vec<String>) -> (r: Vec<String>)
    ensures
        views(r@) == stable_sort(views(v@), by_name()),
{
    let ghost target = stable_sort(views(v@), by_name());
    let mut rest = v;
    let mut out: Vec<String> = Vec::new();
    while rest.len() > 0
        invariant
            views(out@) + stable_sort(views(rest@), by_name()) == target,
        decreases rest.len(),
    {
        let b = first_min_name(&rest);
        let ghost before = views(rest@);
        proof {
            lemma_stable_sort_step(before, by_name(), b as int);
        }
        let x = rest.remove(b);
        let ghost ob = views(out@);
        out.push(x);
        proof {
            assert(views(rest@) =~= before.remove(b as int));
            assert(views(out@) =~= ob.push(before[b as int]));
            assert(views(out@) + stable_sort(views(rest@), by_name()) =~= ob + (seq![before[b as int]] + stable_sort(
                before.remove(b as int),
                by_name(),
            )));
        }
    }
    proof {
        assert(views(rest@) =~= Seq::<Seq<char>>::empty());
        assert(views(out@) + Seq::<Seq<char>>::empty() =~= views(out@));
    }
    out
}

/// A numbered host.
#[derive(Debug)]
pub struct NumberedHost {
    pub host: String,
    pub prefix: String,
    pub num: u32,
}

/// The view of a numbered host.
pub open spec fn nview(e: NumberedHost) -> NumberedView {
    (e.host@, e.prefix@, e.num)
}

/// The views of numbered hosts.
pub open spec fn nviews(v: Seq<NumberedHost>) -> Seq<NumberedView> {
    Seq::new(v.len(), |i: int| nview(v[i]))
}

/// The first entry with the least number.
fn first_min_number(v: &Vec<NumberedHost>) -> (b: usize)
    requires
        v@.len() > 0,
    ensures
        is_first_min(nviews(v@), by_number(), b as int),
{
    let ghost vs = nviews(v@);
    let mut b: usize = 0;
    let mut i: usize = 1;
    while i < v.len()
        invariant
            vs == nviews(v@),
            0 <= b < i <= v@.len(),
            forall|j: int| 0 <= j < i ==> #[trigger] by_number()(vs[b as int], vs[j]),
            forall|j: int| 0 <= j < b ==> !#[trigger] by_number()(vs[j], vs[b as int]),
        decreases v.len() - i,
    {
        proof {
            assert(vs[i as int].2 == v@[i as int].num);
            assert(vs[b as int].2 == v@[b as int].num);
        }
        if v[i].num < v[b].num {
            proof {
                let ob = b as int;
                assert forall|j: int| 0 <= j < i implies !#[trigger] by_number()(vs[j], vs[i as int]) by {
                    assert(by_number()(vs[ob], vs[j]));
                }
                assert forall|j: int| 0 <= j < i + 1 implies #[trigger] by_number()(vs[i as int], vs[j]) by {
                    if j < i {
                        assert(by_number()(vs[ob], vs[j]));
                    }
                }
            }
            b = i;
        } else {
            proof {
                assert(by_number()(vs[b as int], vs[i as int]));
            }
        }
        i = i + 1;
    }
    b
}

/// The first entry with the least prefix.
fn first_min_prefix(v: &Vec<NumberedHost>) -> (b: usize)
    requires
        v@.len() > 0,
    ensures
        is_first_min(nviews(v@), by_prefix(), b as int),
{
    let ghost vs = nviews(v@);
    let mut b: usize = 0;
    let mut i: usize = 1;
    proof {
        assert(by_prefix()(vs[0], vs[0]));
    }
    while i < v.len()
        invariant
            vs == nviews(v@),
            0 <= b < i <= v@.len(),
            forall|j: int| 0 <= j < i ==> #[trigger] by_prefix()(vs[b as int], vs[j]),
            forall|j: int| 0 <= j < b ==> !#[trigger] by_prefix()(vs[j], vs[b as int]),
        decreases v.len() - i,
    {
        if str_lt(v[i].prefix.as_str(), v[b].prefix.as_str()) {
            proof {
                let ob = b as int;
                assert forall|j: int| 0 <= j < i implies !#[trigger] by_prefix()(vs[j], vs[i as int]) by {
                    if lex_le(vs[j].1, vs[i as int].1) {
                        assert(by_prefix()(vs[ob], vs[j]));
                        lemma_lex_le_transitive(vs[ob].1, vs[j].1, vs[i as int].1);
                        lemma_lex_le_lt(vs[ob].1, vs[i as int].1);
                    }
                }
                lemma_lex_irreflexive(vs[i as int].1);
                assert forall|j: int| 0 <= j < i + 1 implies #[trigger] by_prefix()(vs[i as int], vs[j]) by {
                    if j < i {
                        assert(by_prefix()(vs[ob], vs[j]));
                        lemma_lex_le_transitive(vs[i as int].1, vs[ob].1, vs[j].1);
                    }
                }
            }
            b = i;
        } else {
            proof {
                lemma_lex_total(vs[i as int].1, vs[b as int].1);
                assert(by_prefix()(vs[b as int], vs[i as int]));
            }
        }
        i = i + 1;
    }
    b
}

/// Numbered hosts ordered by `by_number()` or, with `prefix_order`, by
/// `by_prefix()`; equal keys keep their order.
fn sort_numbered(v: Vec<NumberedHost>, prefix_order: bool) -> (r: Vec<NumberedHost>)
    ensures
        nviews(r@) == stable_sort(nviews(v@), if prefix_order { by_prefix() } else { by_number() }),
{
    let ghost le = if prefix_order { by_prefix() } else { by_number() };
    let ghost target = stable_sort(nviews(v@), le);
    let mut rest = v;
    let mut out: Vec<NumberedHost> = Vec::new();
    while rest.len() > 0
        invariant
            le == if prefix_order { by_prefix() } else { by_number() },
            nviews(out@) + stable_sort(nviews(rest@), le) == target,
        decreases rest.len(),
    {
        let b = if prefix_order { first_min_prefix(&rest) } else { first_min_number(&rest) };
        let ghost before = nviews(rest@);
        proof {
            lemma_stable_sort_step(before, le, b as int);
        }
        let x = rest.remove(b);
        let ghost ob = nviews(out@);
        out.push(x);
        proof {
            assert(nviews(rest@) =~= before.remove(b as int));
            assert(nviews(out@) =~= ob.push(before[b as int]));
            assert(nviews(out@) + stable_sort(nviews(rest@), le) =~= ob + (seq![before[b as int]] + stable_sort(
                before.remove(b as int),
                le,
            )));
        }
    }
    proof {
        assert(nviews(rest@) =~= Seq::<NumberedView>::empty());
        assert(nviews(out@) + Seq::<NumberedView>::empty() =~= nviews(out@));
    }
    out
}


// ---------------------------------------------------------------------------
// Host ranges
// ---------------------------------------------------------------------------

/// The numbered hosts of `hs`, in order.
pub open spec fn numbered(hs: Seq<Seq<char>>) -> Seq<NumberedView>
    decreases hs.len(),
{
    if hs.len() == 0 {
        Seq::empty()
    } else {
        numbered(hs.drop_last()) + match host_number(hs.last()) {
            Some((p, n)) => seq![(hs.last(), p, n)],
            None => Seq::empty(),
        }
    }
}

/// The hosts of `hs` without a number, in order.
pub open spec fn unnumbered(hs: Seq<Seq<char>>) -> Seq<Seq<char>>
    decreases hs.len(),
{
    if hs.len() == 0 {
        Seq::empty()
    } else {
        unnumbered(hs.drop_last()) + match host_number(hs.last()) {
            Some(_) => Seq::empty(),
            None => seq![hs.last()],
        }
    }
}

/// The first `k` entries share the first entry's prefix, and the next one
/// (if any) does not.
pub open spec fn is_block_end(e: Seq<NumberedView>, k: int) -> bool {
    &&& 1 <= k <= e.len()
    &&& forall|i: int| 0 <= i < k ==> #[trigger] e[i].1 == e[0].1
    &&& (k == e.len() || e[k].1 != e[0].1)
}

/// The first `k` entries have consecutive numbers, and the next one (if
/// any) does not continue them.
pub open spec fn is_run_end(e: Seq<NumberedView>, k: int) -> bool {
    &&& 1 <= k <= e.len()
    &&& forall|i: int| 1 <= i < k ==> #[trigger] e[i].2 == e[i - 1].2 + 1
    &&& (k == e.len() || e[k].2 != e[k - 1].2 + 1)
}

/// A range of numbered hosts: `prefix[start:end]`, both numbers padded
/// with zeros to `width`.
pub open spec fn range_text(prefix: Seq<char>, start: u32, end: u32, width: nat) -> Seq<char> {
    prefix + "["@ + dec_zero_padded(start as nat, width) + ":"@ + dec_zero_padded(end as nat, width) + "]"@
}

/// The names of numbered hosts.
pub open spec fn host_names(e: Seq<NumberedView>) -> Seq<Seq<char>> {
    Seq::new(e.len(), |i: int| e[i].0)
}

/// A run: three or more hosts as a range (padded as its first host's
/// number), fewer host by host.
pub open spec fn run_piece(r: Seq<NumberedView>) -> Seq<Seq<char>> {
    if r.len() >= 3 {
        seq![range_text(r[0].1, r[0].2, r.last().2, trailing_digits(r[0].0))]
    } else {
        host_names(r)
    }
}

/// A group ordered by number, as runs: a run of three or more as a range
/// (padded as its first host's number), a shorter run host by host.
pub open spec fn emit_runs(e: Seq<NumberedView>) -> Seq<Seq<char>>
    decreases e.len(),
{
    if e.len() == 0 {
        Seq::empty()
    } else if exists|k: int| is_run_end(e, k) {
        let k = choose|k: int| is_run_end(e, k);
        run_piece(e.subrange(0, k)) + emit_runs(e.subrange(k, e.len() as int))
    } else {
        Seq::empty()
    }
}

/// Groups of one prefix after another: a group of fewer than three hosts
/// host by host, a larger one as runs.
pub open spec fn emit_groups(e: Seq<NumberedView>) -> Seq<Seq<char>>
    decreases e.len(),
{
    if e.len() == 0 {
        Seq::empty()
    } else if exists|k: int| is_block_end(e, k) {
        let k = choose|k: int| is_block_end(e, k);
        (if k < 3 {
            host_names(e.subrange(0, k))
        } else {
            emit_runs(e.subrange(0, k))
        }) + emit_groups(e.subrange(k, e.len() as int))
    } else {
        Seq::empty()
    }
}

/// What the list of `hs` is folded into: hosts without a number, and for
/// each prefix its hosts ordered by number (then name) folded into runs.
pub open spec fn compress_items(hs: Seq<Seq<char>>) -> Seq<Seq<char>> {
    let s = stable_sort(hs, by_name());
    unnumbered(s) + emit_groups(stable_sort(stable_sort(numbered(s), by_number()), by_prefix()))
}

/// The folded host list: fewer than three hosts as given, otherwise the
/// folded items in `str` order.
pub open spec fn compressed_hosts(hs: Seq<Seq<char>>) -> Seq<Seq<char>> {
    if hs.len() < 3 {
        hs
    } else {
        stable_sort(compress_items(hs), by_name())
    }
}

/// There is at most one end of the first block.
pub proof fn lemma_block_end_unique(e: Seq<NumberedView>, k1: int, k2: int)
    requires
        is_block_end(e, k1),
        is_block_end(e, k2),
    ensures
        k1 == k2,
{
    if k1 < k2 {
        assert(e[k1].1 == e[0].1);
    } else if k2 < k1 {
        assert(e[k2].1 == e[0].1);
    }
}

/// There is at most one end of the first run.
pub proof fn lemma_run_end_unique(e: Seq<NumberedView>, k1: int, k2: int)
    requires
        is_run_end(e, k1),
        is_run_end(e, k2),
    ensures
        k1 == k2,
{
    if k1 < k2 {
        assert(e[k1].2 == e[k1 - 1].2 + 1);
    } else if k2 < k1 {
        assert(e[k2].2 == e[k2 - 1].2 + 1);
    }
}

/// Copies of strings.
fn clone_all(v: &Vec<String>) -> (r: Vec<String>)
    ensures
        views(r@) == views(v@),
{
    let mut r: Vec<String> = Vec::new();
    let mut i: usize = 0;
    while i < v.len()
        invariant
            i <= v@.len(),
            views(r@) == views(v@).subrange(0, i as int),
        decreases v.len() - i,
    {
        let ghost before = views(r@);
        r.push(v[i].clone());
        proof {
            assert(views(r@) =~= before.push(v@[i as int]@));
            assert(views(r@) =~= views(v@).subrange(0, i + 1));
        }
        i = i + 1;
    }
    proof {
        assert(views(v@).subrange(0, i as int) =~= views(v@));
    }
    r
}

/// Appends the run of the entries `lo..hi`.
fn push_run(e: &Vec<NumberedHost>, lo: usize, hi: usize, items: &mut Vec<String>)
    requires
        lo < hi <= e@.len(),
    ensures
        views(final(items)@) == views(old(items)@) + run_piece(nviews(e@).subrange(lo as int, hi as int)),
{
    let ghost es = nviews(e@);
    let ghost r = es.subrange(lo as int, hi as int);
    let ghost before = views(items@);
    if hi - lo >= 3 {
        let width = number_width(e[lo].host.as_str());
        let mut t = String::new();
        push_str(&mut t, e[lo].prefix.as_str());
        push_str(&mut t, "[");
        push_dec_zero_padded(&mut t, e[lo].num as u64, width);
        push_str(&mut t, ":");
        push_dec_zero_padded(&mut t, e[hi - 1].num as u64, width);
        push_str(&mut t, "]");
        proof {
            assert(r[0] == nview(e@[lo as int]));
            assert(r.last() == nview(e@[hi - 1]));
            assert(t@ =~= range_text(r[0].1, r[0].2, r.last().2, trailing_digits(r[0].0)));
        }
        items.push(t);
        proof {
            assert(views(items@) =~= before + run_piece(r));
        }
    } else {
        let mut q: usize = lo;
        while q < hi
            invariant
                lo <= q <= hi <= e@.len(),
                es == nviews(e@),
                r == es.subrange(lo as int, hi as int),
                views(items@) == before + host_names(r.subrange(0, q - lo)),
            decreases hi - q,
        {
            let ghost b2 = views(items@);
            items.push(e[q].host.clone());
            proof {
                assert(r[q - lo] == nview(e@[q as int]));
                assert(host_names(r.subrange(0, q - lo + 1)) =~= host_names(r.subrange(0, q - lo)).push(e@[q as int].host@));
                assert(views(items@) =~= b2.push(e@[q as int].host@));
            }
            q = q + 1;
        }
        proof {
            assert(r.subrange(0, hi - lo) =~= r);
        }
    }
}

/// Unfolds `emit_runs` at the end of its first run.
pub proof fn lemma_emit_runs_step(e: Seq<NumberedView>, k: int)
    requires
        is_run_end(e, k),
    ensures
        emit_runs(e) == run_piece(e.subrange(0, k)) + emit_runs(e.subrange(k, e.len() as int)),
{
    let c = choose|c: int| is_run_end(e, c);
    lemma_run_end_unique(e, k, c);
}

/// Unfolds `emit_groups` at the end of its first block.
pub proof fn lemma_emit_groups_step(e: Seq<NumberedView>, k: int)
    requires
        is_block_end(e, k),
    ensures
        emit_groups(e) == (if k < 3 {
            host_names(e.subrange(0, k))
        } else {
            emit_runs(e.subrange(0, k))
        }) + emit_groups(e.subrange(k, e.len() as int)),
{
    let c = choose|c: int| is_block_end(e, c);
    lemma_block_end_unique(e, k, c);
}

/// The end of the run that starts at `lo`, before `hi`.
fn run_end(e: &Vec<NumberedHost>, lo: usize, hi: usize) -> (j: usize)
    requires
        lo < hi <= e@.len(),
    ensures
        lo < j <= hi,
        is_run_end(nviews(e@).subrange(lo as int, hi as int), j - lo),
{
    let ghost sub = nviews(e@).subrange(lo as int, hi as int);
    let mut end: u32 = e[lo].num;
    let mut j: usize = lo + 1;
    while j < hi && end < 4294967295u32 && e[j].num == end + 1
        invariant
            lo < j <= hi <= e@.len(),
            sub == nviews(e@).subrange(lo as int, hi as int),
            end == e@[j - 1].num,
            forall|t: int| 1 <= t < j - lo ==> #[trigger] sub[t].2 == sub[t - 1].2 + 1,
        decreases hi - j,
    {
        proof {
            assert(sub[j - lo].2 == e@[j as int].num);
            assert(sub[j - lo - 1].2 == e@[j - 1].num);
        }
        end = e[j].num;
        j = j + 1;
    }
    proof {
        if j < hi {
            assert(sub[j - lo].2 == e@[j as int].num);
            assert(sub[j - lo - 1].2 == e@[j - 1].num);
        }
    }
    j
}

/// The end of the block of entries sharing the prefix of the entry at
/// `lo`.
fn block_end(e: &Vec<NumberedHost>, lo: usize) -> (j: usize)
    requires
        lo < e@.len(),
    ensures
        lo < j <= e@.len(),
        is_block_end(nviews(e@).subrange(lo as int, e@.len() as int), j - lo),
{
    let n = e.len();
    let ghost sub = nviews(e@).subrange(lo as int, n as int);
    let mut j: usize = lo + 1;
    while j < n && crate::text::str_eq(e[j].prefix.as_str(), e[lo].prefix.as_str())
        invariant
            lo < j <= n == e@.len(),
            sub == nviews(e@).subrange(lo as int, n as int),
            forall|t: int| 0 <= t < j - lo ==> #[trigger] sub[t].1 == sub[0].1,
        decreases n - j,
    {
        proof {
            assert(sub[j - lo].1 == e@[j as int].prefix@);
            assert(sub[0].1 == e@[lo as int].prefix@);
        }
        j = j + 1;
    }
    proof {
        if j < n {
            assert(sub[j - lo].1 == e@[j as int].prefix@);
            assert(sub[0].1 == e@[lo as int].prefix@);
        }
    }
    j
}

/// Appends the runs of the entries `lo..hi` (one prefix, ordered by
/// number).
fn emit_runs_exec(e: &Vec<NumberedHost>, lo: usize, hi: usize, items: &mut Vec<String>)
    requires
        lo <= hi <= e@.len(),
    ensures
        views(final(items)@) == views(old(items)@) + emit_runs(nviews(e@).subrange(lo as int, hi as int)),
{
    let ghost es = nviews(e@);
    let ghost base = views(items@);
    let mut i: usize = lo;
    proof {
        assert(base + emit_runs(es.subrange(lo as int, hi as int)) == views(items@) + emit_runs(es.subrange(i as int, hi as int)));
    }
    while i < hi
        invariant
            lo <= i <= hi <= e@.len(),
            es == nviews(e@),
            base + emit_runs(es.subrange(lo as int, hi as int)) == views(items@) + emit_runs(es.subrange(i as int, hi as int)),
        decreases hi - i,
    {
        let j = run_end(e, i, hi);
        let ghost sub = es.subrange(i as int, hi as int);
        let ghost before = views(items@);
        proof {
            lemma_emit_runs_step(sub, (j - i) as int);
            assert(sub.subrange((j - i) as int, sub.len() as int) =~= es.subrange(j as int, hi as int));
            assert(sub.subrange(0, (j - i) as int) =~= es.subrange(i as int, j as int));
        }
        push_run(e, i, j, items);
        proof {
            assert(views(items@) + emit_runs(es.subrange(j as int, hi as int)) =~= before + emit_runs(sub));
        }
        i = j;
    }
    proof {
        assert(es.subrange(i as int, hi as int) =~= Seq::<NumberedView>::empty());
        assert(views(items@) + Seq::<Seq<char>>::empty() =~= views(items@));
    }
}

/// Appends the hosts of the entries `lo..hi`.
fn push_hosts(e: &Vec<NumberedHost>, lo: usize, hi: usize, items: &mut Vec<String>)
    requires
        lo <= hi <= e@.len(),
    ensures
        views(final(items)@) == views(old(items)@) + host_names(nviews(e@).subrange(lo as int, hi as int)),
{
    let ghost es = nviews(e@);
    let ghost before = views(items@);
    let mut q: usize = lo;
    while q < hi
        invariant
            lo <= q <= hi <= e@.len(),
            es == nviews(e@),
            views(items@) == before + host_names(es.subrange(lo as int, q as int)),
        decreases hi - q,
    {
        let ghost b2 = views(items@);
        items.push(e[q].host.clone());
        proof {
            assert(host_names(es.subrange(lo as int, q + 1)) =~= host_names(es.subrange(lo as int, q as int)).push(e@[q as int].host@));
            assert(views(items@) =~= b2.push(e@[q as int].host@));
        }
        q = q + 1;
    }
}

/// Appends the groups of `e` (ordered by prefix, then number).
fn emit_groups_exec(e: &Vec<NumberedHost>, items: &mut Vec<String>)
    ensures
        views(final(items)@) == views(old(items)@) + emit_groups(nviews(e@)),
{
    let ghost es = nviews(e@);
    let ghost base = views(items@);
    let n = e.len();
    let mut i: usize = 0;
    proof {
        assert(es.subrange(0, n as int) =~= es);
    }
    while i < n
        invariant
            i <= n == e@.len(),
            es == nviews(e@),
            base + emit_groups(es) == views(items@) + emit_groups(es.subrange(i as int, n as int)),
        decreases n - i,
    {
        let j = block_end(e, i);
        let ghost sub = es.subrange(i as int, n as int);
        let ghost before = views(items@);
        let ghost k = (j - i) as int;
        proof {
            lemma_emit_groups_step(sub, k);
            assert(sub.subrange(k, sub.len() as int) =~= es.subrange(j as int, n as int));
            assert(sub.subrange(0, k) =~= es.subrange(i as int, j as int));
        }
        if j - i < 3 {
            push_hosts(e, i, j, items);
        } else {
            emit_runs_exec(e, i, j, items);
        }
        proof {
            assert(views(items@) + emit_groups(es.subrange(j as int, n as int)) =~= before + emit_groups(sub));
        }
        i = j;
    }
    proof {
        assert(es.subrange(i as int, n as int) =~= Seq::<NumberedView>::empty());
        assert(views(items@) + Seq::<Seq<char>>::empty() =~= views(items@));
    }
}

/// Folds runs of three or more consecutively numbered hosts of one prefix
/// into `prefix[start:end]` (`web01, web02, web03` into `web[01:03]`).
/// Fewer than three hosts come back as given; otherwise the result is in
/// `str` order.
pub fn compress_host_ranges(hosts: &Vec<String>) -> (r: Vec<String>)
    ensures
        views(r@) == compressed_hosts(views(hosts@)),
{
    if hosts.len() < 3 {
        return clone_all(hosts);
    }
    let sorted = sort_names(clone_all(hosts));
    let ghost sv = views(sorted@);
    let mut items: Vec<String> = Vec::new();
    let mut nums: Vec<NumberedHost> = Vec::new();
    let mut i: usize = 0;
    proof {
        assert(sv.subrange(0, 0) =~= Seq::<Seq<char>>::empty());
    }
    while i < sorted.len()
        invariant
            i <= sorted@.len(),
            sv == views(sorted@),
            views(items@) == unnumbered(sv.subrange(0, i as int)),
            nviews(nums@) == numbered(sv.subrange(0, i as int)),
        decreases sorted.len() - i,
    {
        let h = sorted[i].as_str();
        proof {
            let t = sv.subrange(0, i + 1);
            assert(t.drop_last() =~= sv.subrange(0, i as int));
            assert(t.last() == h@);
        }
        let ghost bi = views(items@);
        let ghost bn = nviews(nums@);
        match extract_host_prefix_and_number(h) {
            Some((p, n)) => {
                nums.push(NumberedHost { host: h.to_owned(), prefix: p, num: n });
                proof {
                    assert(nviews(nums@) =~= bn + seq![(h@, p@, n)]);
                    assert(views(items@) =~= bi + Seq::<Seq<char>>::empty());
                }
            },
            None => {
                items.push(h.to_owned());
                proof {
                    assert(views(items@) =~= bi + seq![h@]);
                    assert(nviews(nums@) =~= bn + Seq::<NumberedView>::empty());
                }
            },
        }
        i = i + 1;
    }
    proof {
        assert(sv.subrange(0, i as int) =~= sv);
    }
    let by_number = sort_numbered(nums, false);
    let grouped = sort_numbered(by_number, true);
    emit_groups_exec(&grouped, &mut items);
    sort_names(items)
}


// ---------------------------------------------------------------------------
// Output
// ---------------------------------------------------------------------------

/// A list of hosts can be shown: it is empty, over the count threshold, or
/// lines hold at least one host.
pub open spec fn hosts_ok(c: DenseConfig, n: nat) -> bool {
    n == 0 || n > c.host_count_threshold || c.max_hosts_per_line > 0
}

/// A list of hosts as shown: nothing, `(N hosts)` above the threshold, the
/// folded list when folding shortened it, or the list itself.
pub open spec fn hosts_text(c: DenseConfig, hs: Seq<Seq<char>>) -> Seq<char> {
    if hs.len() == 0 {
        Seq::empty()
    } else if hs.len() > c.host_count_threshold {
        "("@ + dec(hs.len()) + " hosts)"@
    } else if compressed_hosts(hs).len() < hs.len() {
        host_list_text(compressed_hosts(hs), c.max_hosts_per_line as nat)
    } else {
        host_list_text(hs, c.max_hosts_per_line as nat)
    }
}

/// A pending result: its host and the message of a failure.
pub type PendingView = (Seq<char>, Option<Seq<char>>);

/// The view of a pending result.
pub open spec fn pview(r: AccumulatedResult) -> PendingView {
    (r.host@, opt_chars(r.msg))
}

/// The views of pending results.
pub open spec fn pviews(v: Seq<AccumulatedResult>) -> Seq<PendingView> {
    Seq::new(v.len(), |i: int| pview(v[i]))
}

/// The hosts of pending results.
pub open spec fn pending_hosts(rs: Seq<PendingView>) -> Seq<Seq<char>> {
    Seq::new(rs.len(), |i: int| rs[i].0)
}

/// A failed host and its message.
pub open spec fn failure_entry(color: bool, r: PendingView) -> Seq<SpanView> {
    seq![(r.0, if color { bold_style(Color::BrightWhite) } else { plain_style() })] + match r.1 {
        Some(m) => seq![(" => "@ + m, plain_style())],
        None => Seq::empty(),
    }
}

/// The start of a category's line: `  label: `.
pub open spec fn category_lead(color: bool, cat: ResultCategory) -> Seq<SpanView> {
    seq![
        ("  "@, plain_style()),
        (label_of(cat), if color { color_style(category_color(cat)) } else { plain_style() }),
        (": "@, plain_style()),
    ]
}

/// The lines of one category: failures with their messages, others as a
/// host list.
pub open spec fn category_lines(c: DenseConfig, cat: ResultCategory, rs: Seq<PendingView>) -> Seq<Seq<SpanView>> {
    if rs.len() == 0 {
        Seq::empty()
    } else if cat == ResultCategory::Failed || cat == ResultCategory::Unreachable {
        if rs.len() == 1 {
            seq![category_lead(c.use_colors, cat) + failure_entry(c.use_colors, rs[0])]
        } else {
            seq![category_lead(c.use_colors, cat)] + Seq::new(
                rs.len(),
                |i: int| seq![("    "@, plain_style())] + failure_entry(c.use_colors, rs[i]),
            )
        }
    } else {
        seq![category_lead(c.use_colors, cat) + seq![(hosts_text(c, pending_hosts(rs)), if c.use_colors { color_style(Color::BrightWhite) } else { plain_style() })]]
    }
}

/// The lines of all pending results, failures first.
pub open spec fn flush_lines(c: DenseConfig, p: Seq<Seq<PendingView>>) -> Seq<Seq<SpanView>> {
    category_lines(c, ResultCategory::Failed, p[0]) + category_lines(c, ResultCategory::Unreachable, p[1])
        + category_lines(c, ResultCategory::Changed, p[2]) + category_lines(c, ResultCategory::Succeeded, p[3])
        + category_lines(c, ResultCategory::Skipped, p[4])
}

/// Shows a list of hosts compactly.
pub fn format_hosts(config: &DenseConfig, hosts: &Vec<String>) -> (s: String)
    requires
        hosts_ok(*config, hosts@.len()),
    ensures
        s@ == hosts_text(*config, views(hosts@)),
{
    if hosts.len() == 0 {
        return String::new();
    }
    if hosts.len() > config.host_count_threshold {
        let mut s = String::new();
        push_str(&mut s, "(");
        push_dec(&mut s, hosts.len() as u64);
        push_str(&mut s, " hosts)");
        return s;
    }
    let compressed = compress_host_ranges(hosts);
    if compressed.len() < hosts.len() {
        return format_host_list(&compressed, config.max_hosts_per_line);
    }
    format_host_list(hosts, config.max_hosts_per_line)
}

fn failure_spans(color: bool, r: &AccumulatedResult, l: &mut Vec<Span>)
    ensures
        line_view(final(l)@) == line_view(old(l)@) + failure_entry(color, pview(*r)),
{
    push_span(l, r.host.as_str(), Style::bold_if(color, Color::BrightWhite));
    match &r.msg {
        Some(m) => {
            let mut t = String::new();
            push_str(&mut t, " => ");
            push_str(&mut t, m.as_str());
            push_owned(l, t, Style::plain());
        },
        None => {},
    }
    proof {
        assert(line_view(final(l)@) =~= line_view(old(l)@) + failure_entry(color, pview(*r)));
    }
}

fn category_lead_spans(color: bool, cat: ResultCategory) -> (l: Vec<Span>)
    ensures
        line_view(l@) == category_lead(color, cat),
{
    let mut l = Vec::new();
    push_span(&mut l, "  ", Style::plain());
    let c = match cat {
        ResultCategory::Succeeded => Color::Green,
        ResultCategory::Changed => Color::Yellow,
        ResultCategory::Skipped => Color::Cyan,
        ResultCategory::Failed => Color::Red,
        ResultCategory::Unreachable => Color::Red,
    };
    push_span(&mut l, cat.label(), Style::fg_if(color, c));
    push_span(&mut l, ": ", Style::plain());
    proof {
        assert(line_view(l@) =~= category_lead(color, cat));
    }
    l
}

/// The lines of the pending results of one category.
pub fn print_category(config: &DenseConfig, category: ResultCategory, results: &Vec<AccumulatedResult>) -> (out: Vec<Vec<Span>>)
    requires
        category == ResultCategory::Failed || category == ResultCategory::Unreachable || hosts_ok(*config, results@.len()),
    ensures
        lines_view(out@) == category_lines(*config, category, pviews(results@)),
{
    let ghost rs = pviews(results@);
    let mut out: Vec<Vec<Span>> = Vec::new();
    if results.len() == 0 {
        proof {
            assert(lines_view(out@) =~= Seq::<Seq<SpanView>>::empty());
        }
        return out;
    }
    let color = config.use_colors;
    let mut lead = category_lead_spans(color, category);
    if category == ResultCategory::Failed || category == ResultCategory::Unreachable {
        if results.len() == 1 {
            failure_spans(color, &results[0], &mut lead);
            push_line(&mut out, lead);
            proof {
                assert(lines_view(out@) =~= category_lines(*config, category, rs));
            }
        } else {
            push_line(&mut out, lead);
            let ghost head = lines_view(out@);
            let mut i: usize = 0;
            while i < results.len()
                invariant
                    i <= results@.len(),
                    rs == pviews(results@),
                    lines_view(out@) == head + Seq::new(
                        i as nat,
                        |j: int| seq![("    "@, plain_style())] + failure_entry(color, rs[j]),
                    ),
                decreases results.len() - i,
            {
                let mut l = Vec::new();
                push_span(&mut l, "    ", Style::plain());
                failure_spans(color, &results[i], &mut l);
                proof {
                    assert(rs[i as int] == pview(results@[i as int]));
                    assert(line_view(l@) =~= seq![("    "@, plain_style())] + failure_entry(color, rs[i as int]));
                }
                let ghost before = lines_view(out@);
                push_line(&mut out, l);
                proof {
                    assert(lines_view(out@) =~= head + Seq::new(
                        (i + 1) as nat,
                        |j: int| seq![("    "@, plain_style())] + failure_entry(color, rs[j]),
                    ));
                }
                i = i + 1;
            }
            proof {
                assert(lines_view(out@) =~= category_lines(*config, category, rs));
            }
        }
    } else {
        let mut hosts: Vec<String> = Vec::new();
        let mut i: usize = 0;
        while i < results.len()
            invariant
                i <= results@.len(),
                rs == pviews(results@),
                views(hosts@) == pending_hosts(rs).subrange(0, i as int),
            decreases results.len() - i,
        {
            let ghost before = views(hosts@);
            hosts.push(results[i].host.clone());
            proof {
                assert(rs[i as int] == pview(results@[i as int]));
                assert(views(hosts@) =~= before.push(results@[i as int].host@));
                assert(views(hosts@) =~= pending_hosts(rs).subrange(0, i + 1));
            }
            i = i + 1;
        }
        proof {
            assert(pending_hosts(rs).subrange(0, i as int) =~= pending_hosts(rs));
        }
        let text = format_hosts(config, &hosts);
        let ghost tv = text@;
        let ghost lv = line_view(lead@);
        push_owned(&mut lead, text, Style::fg_if(color, Color::BrightWhite));
        proof {
            assert(tv == hosts_text(*config, pending_hosts(rs)));
            assert(line_view(lead@) =~= category_lead(color, category) + seq![(hosts_text(*config, pending_hosts(rs)), if color { color_style(Color::BrightWhite) } else { plain_style() })]);
        }
        push_line(&mut out, lead);
        proof {
            assert(lines_view(out@) =~= category_lines(*config, category, rs));
        }
    }
    out
}


// ---------------------------------------------------------------------------
// Headers and recap
// ---------------------------------------------------------------------------

/// A header: `KIND [name]` and stars up to 80 bytes.
pub open spec fn header_line(color: bool, kind: Seq<char>, name: Seq<char>) -> Seq<SpanView> {
    let text = kind + " ["@ + name + "]"@;
    seq![
        (text, if color { bold_style(Color::BrightWhite) } else { plain_style() }),
        (" "@, plain_style()),
        (repeat_char('*', sat_sub(80, (utf8_len(text) as usize) as int)), if color { color_style(Color::BrightBlack) } else { plain_style() }),
    ]
}

fn header(color: bool, kind: &str, name: &str) -> (l: Vec<Span>)
    ensures
        line_view(l@) == header_line(color, kind@, name@),
{
    let mut t = String::new();
    push_str(&mut t, kind);
    push_str(&mut t, " [");
    push_str(&mut t, name);
    push_str(&mut t, "]");
    let n = byte_len(t.as_str());
    let pad: usize = if n >= 80 { 0 } else { 80 - n };
    let mut l = Vec::new();
    push_owned(&mut l, t, Style::bold_if(color, Color::BrightWhite));
    push_span(&mut l, " ", Style::plain());
    push_owned(&mut l, repeat_string('*', pad), Style::fg_if(color, Color::BrightBlack));
    proof {
        assert(line_view(l@) =~= header_line(color, kind@, name@));
    }
    l
}

/// A sum over the hosts `ns` of a count.
pub open spec fn total_of(ns: Seq<Seq<char>>, m: Map<Seq<char>, HostStats>, f: spec_fn(HostStats) -> u32) -> nat
    decreases ns.len(),
{
    if ns.len() == 0 {
        0
    } else {
        total_of(ns.drop_last(), m, f) + f(m[ns.last()]) as nat
    }
}

/// The ok count.
pub open spec fn ok_count() -> spec_fn(HostStats) -> u32 {
    |s: HostStats| s.ok
}

/// The changed count.
pub open spec fn changed_count() -> spec_fn(HostStats) -> u32 {
    |s: HostStats| s.changed
}

/// The failed count.
pub open spec fn failed_count() -> spec_fn(HostStats) -> u32 {
    |s: HostStats| s.failed
}

/// A prefix sums to no more than the whole.
pub proof fn lemma_total_prefix(ns: Seq<Seq<char>>, m: Map<Seq<char>, HostStats>, f: spec_fn(HostStats) -> u32, i: int)
    requires
        0 <= i <= ns.len(),
    ensures
        total_of(ns.subrange(0, i), m, f) <= total_of(ns, m, f),
    decreases ns.len(),
{
    if i < ns.len() {
        lemma_total_prefix(ns.drop_last(), m, f, i);
        assert(ns.drop_last().subrange(0, i) =~= ns.subrange(0, i));
    } else {
        assert(ns.subrange(0, i) =~= ns);
    }
}

/// The hosts of `ns` where something failed, in order.
pub open spec fn failed_hosts(ns: Seq<Seq<char>>, m: Map<Seq<char>, HostStats>) -> Seq<Seq<char>>
    decreases ns.len(),
{
    if ns.len() == 0 {
        Seq::empty()
    } else if stats_failed(m[ns.last()]) {
        failed_hosts(ns.drop_last(), m).push(ns.last())
    } else {
        failed_hosts(ns.drop_last(), m)
    }
}

/// The hosts of `ns` where something changed and nothing failed, in order.
pub open spec fn changed_hosts(ns: Seq<Seq<char>>, m: Map<Seq<char>, HostStats>) -> Seq<Seq<char>>
    decreases ns.len(),
{
    if ns.len() == 0 {
        Seq::empty()
    } else if !stats_failed(m[ns.last()]) && m[ns.last()].changed > 0 {
        changed_hosts(ns.drop_last(), m).push(ns.last())
    } else {
        changed_hosts(ns.drop_last(), m)
    }
}

/// The recap lists as failed the hosts, in order, with a failed task or an
/// unreachable mark, and as changed those with a change and neither.
pub proof fn lemma_recap_host_lists(ns: Seq<Seq<char>>, m: Map<Seq<char>, HostStats>)
    ensures
        failed_hosts(ns, m) == ns.filter(|h: Seq<char>| m[h].failed > 0 || m[h].unreachable > 0),
        changed_hosts(ns, m) == ns.filter(|h: Seq<char>| m[h].failed == 0 && m[h].unreachable == 0 && m[h].changed > 0),
    decreases ns.len(),
{
    reveal(Seq::filter);
    if ns.len() > 0 {
        lemma_recap_host_lists(ns.drop_last(), m);
    }
}

/// The summary line of the recap.
pub open spec fn summary_line(color: bool, hosts: nat, ok: nat, changed: nat, failed: nat) -> Seq<SpanView> {
    seq![
        ("  "@ + dec(hosts) + " total hosts: "@, plain_style()),
        ("ok"@, if color { color_style(Color::Green) } else { plain_style() }),
        ("="@ + dec(ok) + " "@, plain_style()),
        ("changed"@, if color { color_style(Color::Yellow) } else { plain_style() }),
        ("="@ + dec(changed) + " "@, plain_style()),
        ("failed"@, if color { color_style(Color::Red) } else { plain_style() }),
        ("="@ + dec(failed), plain_style()),
    ]
}

/// The recap line of a failed host.
pub open spec fn failed_host_line(color: bool, host: Seq<char>, s: HostStats) -> Seq<SpanView> {
    seq![
        ("    "@, plain_style()),
        (host, if color { bold_style(Color::Red) } else { plain_style() }),
        (": ok="@, plain_style()),
        (dec(s.ok as nat), if color { color_style(Color::Green) } else { plain_style() }),
        (" changed="@, plain_style()),
        (dec(s.changed as nat), if color { color_style(Color::Yellow) } else { plain_style() }),
        (" failed="@, plain_style()),
        (dec(s.failed as nat), if color { color_style(Color::Red) } else { plain_style() }),
        (" unreachable="@, plain_style()),
        (dec(s.unreachable as nat), if color { color_style(Color::Red) } else { plain_style() }),
    ]
}

/// Whatever the coloring, a failed host's recap line reads `host: ok=N
/// changed=N failed=N unreachable=N`, each label followed by the host's
/// own count of that kind.
pub proof fn lemma_failed_host_line_text(color: bool, host: Seq<char>, s: HostStats)
    ensures
        text_of(failed_host_line(color, host, s)) == "    "@ + host + ": ok="@ + dec(s.ok as nat) + " changed="@ + dec(s.changed as nat) + " failed="@
            + dec(s.failed as nat) + " unreachable="@ + dec(s.unreachable as nat),
{
    reveal_with_fuel(text_of, 12);
    assert(text_of(failed_host_line(color, host, s)) =~= "    "@ + host + ": ok="@ + dec(s.ok as nat) + " changed="@ + dec(s.changed as nat) + " failed="@
            + dec(s.failed as nat) + " unreachable="@ + dec(s.unreachable as nat));
}

/// Whatever the coloring, the summary line reads `N total hosts: ok=N
/// changed=N failed=N`, each label followed by its own total.
pub proof fn lemma_summary_line_text(color: bool, hosts: nat, ok: nat, changed: nat, failed: nat)
    ensures
        text_of(summary_line(color, hosts, ok, changed, failed)) == "  "@ + dec(hosts) + " total hosts: "@ + "ok"@ + "="@ + dec(ok) + " "@ + "changed"@ + "="@ + dec(changed) + " "@
            + "failed"@ + "="@ + dec(failed),
{
    reveal_with_fuel(text_of, 9);
    assert(text_of(summary_line(color, hosts, ok, changed, failed)) =~= "  "@ + dec(hosts) + " total hosts: "@ + "ok"@ + "="@ + dec(ok) + " "@ + "changed"@ + "="@ + dec(changed) + " "@
            + "failed"@ + "="@ + dec(failed));
}

/// The recap: a summary of all hosts, the failed hosts in detail, and when
/// verbose the hosts that changed.
pub open spec fn recap(c: DenseConfig, ns: Seq<Seq<char>>, m: Map<Seq<char>, HostStats>) -> Seq<Seq<SpanView>> {
    let color = c.use_colors;
    let failed = failed_hosts(ns, m);
    let changed = changed_hosts(ns, m);
    seq![
        Seq::<SpanView>::empty(),
        seq![
            ("PLAY RECAP"@, if color { bold_style(Color::BrightWhite) } else { plain_style() }),
            (" "@, plain_style()),
            (repeat_char('*', 70), if color { color_style(Color::BrightBlack) } else { plain_style() }),
        ],
        Seq::<SpanView>::empty(),
        summary_line(color, ns.len(), total_of(ns, m, ok_count()), total_of(ns, m, changed_count()), total_of(ns, m, failed_count())),
    ] + (if failed.len() > 0 {
        seq![
            Seq::<SpanView>::empty(),
            seq![("  "@, plain_style()), ("Failed hosts"@, if color { bold_style(Color::Red) } else { plain_style() }), (":"@, plain_style())],
        ] + Seq::new(failed.len(), |i: int| failed_host_line(color, failed[i], m[failed[i]]))
    } else {
        Seq::empty()
    }) + (if c.verbosity > 0 && changed.len() > 0 {
        seq![
            Seq::<SpanView>::empty(),
            seq![("  "@, plain_style()), ("Changed hosts"@, if color { color_style(Color::Yellow) } else { plain_style() }), (": "@ + hosts_text(c, changed), plain_style())],
        ]
    } else {
        Seq::empty()
    })
}

/// What the recap needs: the sums fit in `u32`, and the changed hosts can
/// be listed.
pub open spec fn recap_ok(c: DenseConfig, ns: Seq<Seq<char>>, m: Map<Seq<char>, HostStats>) -> bool {
    &&& total_of(ns, m, ok_count()) <= u32::MAX
    &&& total_of(ns, m, changed_count()) <= u32::MAX
    &&& total_of(ns, m, failed_count()) <= u32::MAX
    &&& hosts_ok(c, changed_hosts(ns, m).len())
}

fn failed_host(color: bool, host: &str, s: &HostStats) -> (l: Vec<Span>)
    ensures
        line_view(l@) == failed_host_line(color, host@, *s),
{
    let mut l = Vec::new();
    push_span(&mut l, "    ", Style::plain());
    push_span(&mut l, host, Style::bold_if(color, Color::Red));
    push_span(&mut l, ": ok=", Style::plain());
    push_owned(&mut l, dec_string(s.ok as u64), Style::fg_if(color, Color::Green));
    push_span(&mut l, " changed=", Style::plain());
    push_owned(&mut l, dec_string(s.changed as u64), Style::fg_if(color, Color::Yellow));
    push_span(&mut l, " failed=", Style::plain());
    push_owned(&mut l, dec_string(s.failed as u64), Style::fg_if(color, Color::Red));
    push_span(&mut l, " unreachable=", Style::plain());
    push_owned(&mut l, dec_string(s.unreachable as u64), Style::fg_if(color, Color::Red));
    proof {
        assert(line_view(l@) =~= failed_host_line(color, host@, *s));
    }
    l
}

fn summary(color: bool, hosts: usize, ok: u32, changed: u32, failed: u32) -> (l: Vec<Span>)
    ensures
        line_view(l@) == summary_line(color, hosts as nat, ok as nat, changed as nat, failed as nat),
{
    let mut l = Vec::new();
    let mut t = String::new();
    push_str(&mut t, "  ");
    push_dec(&mut t, hosts as u64);
    push_str(&mut t, " total hosts: ");
    push_owned(&mut l, t, Style::plain());
    push_span(&mut l, "ok", Style::fg_if(color, Color::Green));
    let mut a = String::new();
    push_str(&mut a, "=");
    push_dec(&mut a, ok as u64);
    push_str(&mut a, " ");
    push_owned(&mut l, a, Style::plain());
    push_span(&mut l, "changed", Style::fg_if(color, Color::Yellow));
    let mut b = String::new();
    push_str(&mut b, "=");
    push_dec(&mut b, changed as u64);
    push_str(&mut b, " ");
    push_owned(&mut l, b, Style::plain());
    push_span(&mut l, "failed", Style::fg_if(color, Color::Red));
    let mut c = String::new();
    push_str(&mut c, "=");
    push_dec(&mut c, failed as u64);
    push_owned(&mut l, c, Style::plain());
    proof {
        assert(line_view(l@) =~= summary_line(color, hosts as nat, ok as nat, changed as nat, failed as nat));
    }
    l
}

/// The recap of the hosts of `stats`, in insertion order.
pub fn print_final_recap(config: &DenseConfig, stats: &HostTable<HostStats>) -> (out: Vec<Vec<Span>>)
    requires
        stats.wf(),
        recap_ok(*config, stats.names(), stats@),
    ensures
        lines_view(out@) == recap(*config, stats.names(), stats@),
{
    let ghost ns = stats.names();
    let ghost m = stats@;
    let color = config.use_colors;
    proof {
        stats.lemma_view();
    }
    let n = stats.len();
    let mut ok: u32 = 0;
    let mut changed: u32 = 0;
    let mut failed: u32 = 0;
    let mut failed_names: Vec<String> = Vec::new();
    let mut changed_names: Vec<String> = Vec::new();
    let mut i: usize = 0;
    proof {
        assert(ns.subrange(0, 0) =~= Seq::<Seq<char>>::empty());
    }
    while i < n
        invariant
            stats.wf(),
            ns == stats.names(),
            m == stats@,
            n == ns.len(),
            i <= n,
            recap_ok(*config, ns, m),
            ok == total_of(ns.subrange(0, i as int), m, ok_count()),
            changed == total_of(ns.subrange(0, i as int), m, changed_count()),
            failed == total_of(ns.subrange(0, i as int), m, failed_count()),
            views(failed_names@) == failed_hosts(ns.subrange(0, i as int), m),
            views(changed_names@) == changed_hosts(ns.subrange(0, i as int), m),
        decreases n - i,
    {
        let (h, st) = stats.entry_at(i);
        let ghost t = ns.subrange(0, i + 1);
        proof {
            assert(t.drop_last() =~= ns.subrange(0, i as int));
            assert(t.last() == h@);
            lemma_total_prefix(ns, m, ok_count(), i + 1);
            lemma_total_prefix(ns, m, changed_count(), i + 1);
            lemma_total_prefix(ns, m, failed_count(), i + 1);
        }
        ok = ok + st.ok;
        changed = changed + st.changed;
        failed = failed + st.failed;
        let ghost bf = views(failed_names@);
        let ghost bc = views(changed_names@);
        if st.has_failures() {
            failed_names.push(h.clone());
            proof {
                assert(views(failed_names@) =~= bf.push(h@));
            }
        } else if st.has_changes() {
            changed_names.push(h.clone());
            proof {
                assert(views(changed_names@) =~= bc.push(h@));
            }
        }
        i = i + 1;
    }
    proof {
        assert(ns.subrange(0, n as int) =~= ns);
    }
    let mut out: Vec<Vec<Span>> = Vec::new();
    push_line(&mut out, blank());
    let mut hl = Vec::new();
    push_span(&mut hl, "PLAY RECAP", Style::bold_if(color, Color::BrightWhite));
    push_span(&mut hl, " ", Style::plain());
    push_owned(&mut hl, repeat_string('*', 70), Style::fg_if(color, Color::BrightBlack));
    proof {
        assert(line_view(hl@) =~= seq![
            ("PLAY RECAP"@, if color { bold_style(Color::BrightWhite) } else { plain_style() }),
            (" "@, plain_style()),
            (repeat_char('*', 70), if color { color_style(Color::BrightBlack) } else { plain_style() }),
        ]);
    }
    push_line(&mut out, hl);
    push_line(&mut out, blank());
    push_line(&mut out, summary(color, n, ok, changed, failed));
    let ghost head = lines_view(out@);
    let ghost fv = views(failed_names@);
    if failed_names.len() > 0 {
        push_line(&mut out, blank());
        let mut fl = Vec::new();
        push_span(&mut fl, "  ", Style::plain());
        push_span(&mut fl, "Failed hosts", Style::bold_if(color, Color::Red));
        push_span(&mut fl, ":", Style::plain());
        proof {
            assert(line_view(fl@) =~= seq![("  "@, plain_style()), ("Failed hosts"@, if color { bold_style(Color::Red) } else { plain_style() }), (":"@, plain_style())]);
        }
        push_line(&mut out, fl);
        let ghost h2 = lines_view(out@);
        let mut j: usize = 0;
        while j < failed_names.len()
            invariant
                stats.wf(),
                m == stats@,
                fv == views(failed_names@),
                fv == failed_hosts(ns, m),
                forall|k: Seq<char>| m.contains_key(k) <==> ns.contains(k),
                j <= failed_names@.len(),
                lines_view(out@) == h2 + Seq::new(j as nat, |q: int| failed_host_line(color, fv[q], m[fv[q]])),
            decreases failed_names.len() - j,
        {
            let h = failed_names[j].as_str();
            proof {
                lemma_failed_hosts_in(ns, m, j as int);
                assert(fv[j as int] == h@);
            }
            let st = stats.get(h).unwrap();
            push_line(&mut out, failed_host(color, h, &st));
            proof {
                assert(lines_view(out@) =~= h2 + Seq::new((j + 1) as nat, |q: int| failed_host_line(color, fv[q], m[fv[q]])));
            }
            j = j + 1;
        }
    }
    let ghost mid = lines_view(out@);
    if config.verbosity > 0 && changed_names.len() > 0 {
        push_line(&mut out, blank());
        let text = format_hosts(config, &changed_names);
        let mut cl = Vec::new();
        push_span(&mut cl, "  ", Style::plain());
        push_span(&mut cl, "Changed hosts", Style::fg_if(color, Color::Yellow));
        let mut t = String::new();
        push_str(&mut t, ": ");
        push_str(&mut t, text.as_str());
        push_owned(&mut cl, t, Style::plain());
        proof {
            assert(line_view(cl@) =~= seq![("  "@, plain_style()), ("Changed hosts"@, if color { color_style(Color::Yellow) } else { plain_style() }), (": "@ + hosts_text(*config, changed_hosts(ns, m)), plain_style())]);
        }
        push_line(&mut out, cl);
    }
    proof {
        let failed = failed_hosts(ns, m);
        let changed = changed_hosts(ns, m);
        assert(head =~= seq![
            Seq::<SpanView>::empty(),
            seq![
                ("PLAY RECAP"@, if color { bold_style(Color::BrightWhite) } else { plain_style() }),
                (" "@, plain_style()),
                (repeat_char('*', 70), if color { color_style(Color::BrightBlack) } else { plain_style() }),
            ],
            Seq::<SpanView>::empty(),
            summary_line(color, ns.len(), total_of(ns, m, ok_count()), total_of(ns, m, changed_count()), total_of(ns, m, failed_count())),
        ]);
        assert(mid =~= head + (if failed.len() > 0 {
            seq![
                Seq::<SpanView>::empty(),
                seq![("  "@, plain_style()), ("Failed hosts"@, if color { bold_style(Color::Red) } else { plain_style() }), (":"@, plain_style())],
            ] + Seq::new(failed.len(), |i: int| failed_host_line(color, failed[i], m[failed[i]]))
        } else {
            Seq::empty()
        }));
        assert(lines_view(out@) =~= mid + (if config.verbosity > 0 && changed.len() > 0 {
            seq![
                Seq::<SpanView>::empty(),
                seq![("  "@, plain_style()), ("Changed hosts"@, if color { color_style(Color::Yellow) } else { plain_style() }), (": "@ + hosts_text(*config, changed), plain_style())],
            ]
        } else {
            Seq::empty()
        }));
        assert(lines_view(out@) =~= recap(*config, ns, m));
    }
    out
}

/// Every failed host is a host of the list.
pub proof fn lemma_failed_hosts_in(ns: Seq<Seq<char>>, m: Map<Seq<char>, HostStats>, j: int)
    requires
        0 <= j < failed_hosts(ns, m).len(),
    ensures
        ns.contains(failed_hosts(ns, m)[j]),
    decreases ns.len(),
{
    if ns.len() > 0 {
        let init = failed_hosts(ns.drop_last(), m);
        if j < init.len() {
            lemma_failed_hosts_in(ns.drop_last(), m, j);
            let k = choose|k: int| 0 <= k < ns.drop_last().len() && ns.drop_last()[k] == init[j];
            assert(ns[k] == init[j]);
        } else {
            assert(ns[ns.len() - 1] == ns.last());
        }
    }
}


// ---------------------------------------------------------------------------
// The callback
// ---------------------------------------------------------------------------

/// The counts of `host`, zero if it has none yet.
pub open spec fn stats_of(m: Map<Seq<char>, HostStats>, host: Seq<char>) -> HostStats {
    if m.contains_key(host) {
        m[host]
    } else {
        zero_stats()
    }
}

/// A finished task counts once, under its own kind: a task that did not
/// succeed as failed, else a skipped one as skipped, else a changed one as
/// changed, else as ok; the other counts stay as they were.
pub proof fn lemma_count_result(s: HostStats, skipped: bool, success: bool, changed: bool)
    requires
        s.ok < u32::MAX,
        s.changed < u32::MAX,
        s.failed < u32::MAX,
        s.skipped < u32::MAX,
    ensures
        count_result(s, success, skipped, changed).failed == s.failed + if !success { 1int } else { 0int },
        count_result(s, success, skipped, changed).skipped == s.skipped + if success && skipped { 1int } else { 0int },
        count_result(s, success, skipped, changed).changed == s.changed + if success && !skipped && changed { 1int } else { 0int },
        count_result(s, success, skipped, changed).ok == s.ok + if success && !skipped && !changed { 1int } else { 0int },
        count_result(s, success, skipped, changed).unreachable == s.unreachable,
{
}

/// The counts after one more task: failure first, then skip, then change.
pub open spec fn count_result(s: HostStats, success: bool, skipped: bool, changed: bool) -> HostStats {
    if !success {
        HostStats { failed: wrap_inc(s.failed), ..s }
    } else if skipped {
        HostStats { skipped: wrap_inc(s.skipped), ..s }
    } else if changed {
        HostStats { changed: wrap_inc(s.changed), ..s }
    } else {
        HostStats { ok: wrap_inc(s.ok), ..s }
    }
}

/// The category shown at position `i`.
fn category_for(i: usize) -> (c: ResultCategory)
    ensures
        c == category_at(i as nat),
{
    if i == 0 {
        ResultCategory::Failed
    } else if i == 1 {
        ResultCategory::Unreachable
    } else if i == 2 {
        ResultCategory::Changed
    } else if i == 3 {
        ResultCategory::Succeeded
    } else {
        ResultCategory::Skipped
    }
}

/// Callback with compact output for many hosts.
#[derive(Debug)]
pub struct DenseCallback {
    config: DenseConfig,
    pending: Vec<Vec<AccumulatedResult>>,
    current_task_name: Option<String>,
    host_stats: HostTable<HostStats>,
    started: bool,
    task_header_printed: bool,
}

impl DenseCallback {
    /// Five lists of pending results, one per category, and a well formed
    /// table of counts.
    pub closed spec fn wf(&self) -> bool {
        self.pending@.len() == 5 && self.host_stats.wf()
    }

    /// The configuration.
    pub closed spec fn spec_config(&self) -> DenseConfig {
        self.config
    }

    /// The pending results, by display position.
    pub closed spec fn pending(&self) -> Seq<Seq<PendingView>> {
        Seq::new(5, |i: int| pviews(self.pending@[i]@))
    }

    /// The counts per host.
    pub closed spec fn stats(&self) -> Map<Seq<char>, HostStats> {
        self.host_stats@
    }

    /// The hosts counted, in the order they first appeared.
    pub closed spec fn hosts(&self) -> Seq<Seq<char>> {
        self.host_stats.names()
    }

    /// Whether a playbook started.
    pub closed spec fn spec_started(&self) -> bool {
        self.started
    }

    /// The task whose results are pending.
    pub closed spec fn spec_current_task(&self) -> Option<Seq<char>> {
        opt_chars(self.current_task_name)
    }

    /// The pending host lists can be shown.
    pub open spec fn flushable(&self) -> bool {
        &&& hosts_ok(self.spec_config(), self.pending()[2].len())
        &&& hosts_ok(self.spec_config(), self.pending()[3].len())
        &&& hosts_ok(self.spec_config(), self.pending()[4].len())
    }

    /// A dense callback with the default configuration.
    pub fn new() -> (c: Self)
        ensures
            c.wf(),
            c.spec_config() == DenseConfig::default_spec(),
            c.stats() == Map::<Seq<char>, HostStats>::empty(),
            c.pending() == Seq::new(5, |i: int| Seq::<PendingView>::empty()),
            !c.spec_started(),
    {
        Self::with_config(DenseConfig::new())
    }

    /// A dense callback with the given configuration.
    pub fn with_config(config: DenseConfig) -> (c: Self)
        ensures
            c.wf(),
            c.spec_config() == config,
            c.stats() == Map::<Seq<char>, HostStats>::empty(),
            c.pending() == Seq::new(5, |i: int| Seq::<PendingView>::empty()),
            !c.spec_started(),
            c.spec_current_task() is None,
    {
        let mut pending: Vec<Vec<AccumulatedResult>> = Vec::new();
        let mut i: usize = 0;
        while i < 5
            invariant
                i <= 5,
                pending@.len() == i,
                forall|j: int| 0 <= j < i ==> (#[trigger] pending@[j])@.len() == 0,
            decreases 5 - i,
        {
            pending.push(Vec::new());
            i = i + 1;
        }
        let c = DenseCallback {
            config,
            pending,
            current_task_name: None,
            host_stats: HostTable::new(),
            started: false,
            task_header_printed: false,
        };
        proof {
            assert forall|j: int| 0 <= j < 5 implies #[trigger] pviews(c.pending@[j]@) =~= Seq::<PendingView>::empty() by {
                assert(c.pending@[j]@.len() == 0);
            }
            assert(c.pending() =~= Seq::new(5, |i: int| Seq::<PendingView>::empty()));
        }
        c
    }

    /// The configuration.
    pub fn config(&self) -> (c: DenseConfig)
        ensures
            c == self.spec_config(),
    {
        self.config
    }

    /// The counts of `host`, if it has any.
    pub fn host_stats(&self, host: &str) -> (r: Option<HostStats>)
        requires
            self.wf(),
        ensures
            r == if self.stats().contains_key(host@) {
                Some(self.stats()[host@])
            } else {
                None::<HostStats>
            },
    {
        self.host_stats.get(host)
    }

    /// Whether results of a category are pending.
    pub fn has_pending(&self, category: ResultCategory) -> (b: bool)
        requires
            self.wf(),
        ensures
            b == (self.pending()[order_of(category) as int].len() > 0),
    {
        let i = category.display_order() as usize;
        self.pending[i].len() > 0
    }

    /// Whether the pending results can be shown: every pending list of
    /// changed, ok or skipped hosts is empty, above the threshold, or may be
    /// split into lines.
    pub fn can_flush(&self) -> (b: bool)
        requires
            self.wf(),
        ensures
            b == self.flushable(),
    {
        let t = self.config.host_count_threshold;
        let split = self.config.max_hosts_per_line > 0;
        let a = self.pending[2].len();
        let b = self.pending[3].len();
        let d = self.pending[4].len();
        (a == 0 || a > t || split) && (b == 0 || b > t || split) && (d == 0 || d > t || split)
    }

    /// Shows the pending results, failures first, and forgets them.
    fn flush_task_results(&mut self) -> (out: Vec<Vec<Span>>)
        requires
            old(self).wf(),
            old(self).flushable(),
        ensures
            final(self).wf(),
            lines_view(out@) == flush_lines(old(self).spec_config(), old(self).pending()),
            final(self).pending() == Seq::new(5, |i: int| Seq::<PendingView>::empty()),
            final(self).spec_config() == old(self).spec_config(),
            final(self).stats() == old(self).stats(),
            final(self).hosts() == old(self).hosts(),
            final(self).spec_started() == old(self).spec_started(),
            final(self).spec_current_task() == old(self).spec_current_task(),
    {
        let ghost p = self.pending();
        let mut out: Vec<Vec<Span>> = Vec::new();
        let mut i: usize = 0;
        proof {
            assert(lines_view(out@) =~= Seq::<Seq<SpanView>>::empty());
        }
        while i < 5
            invariant
                self.wf(),
                self.flushable(),
                p == self.pending(),
                i <= 5,
                lines_view(out@) == if i == 0 {
                    Seq::<Seq<SpanView>>::empty()
                } else if i == 1 {
                    category_lines(self.config, ResultCategory::Failed, p[0])
                } else if i == 2 {
                    category_lines(self.config, ResultCategory::Failed, p[0]) + category_lines(self.config, ResultCategory::Unreachable, p[1])
                } else if i == 3 {
                    category_lines(self.config, ResultCategory::Failed, p[0]) + category_lines(self.config, ResultCategory::Unreachable, p[1])
                        + category_lines(self.config, ResultCategory::Changed, p[2])
                } else if i == 4 {
                    category_lines(self.config, ResultCategory::Failed, p[0]) + category_lines(self.config, ResultCategory::Unreachable, p[1])
                        + category_lines(self.config, ResultCategory::Changed, p[2]) + category_lines(self.config, ResultCategory::Succeeded, p[3])
                } else {
                    flush_lines(self.config, p)
                },
            decreases 5 - i,
        {
            let cat = category_for(i);
            proof {
                assert(p[i as int] == pviews(self.pending@[i as int]@));
            }
            let lines = print_category(&self.config, cat, &self.pending[i]);
            append_lines(&mut out, lines);
            i = i + 1;
        }
        let mut fresh: Vec<Vec<AccumulatedResult>> = Vec::new();
        let mut k: usize = 0;
        while k < 5
            invariant
                k <= 5,
                fresh@.len() == k,
                forall|j: int| 0 <= j < k ==> (#[trigger] fresh@[j])@.len() == 0,
            decreases 5 - k,
        {
            fresh.push(Vec::new());
            k = k + 1;
        }
        self.pending = fresh;
        proof {
            assert forall|j: int| 0 <= j < 5 implies #[trigger] pviews(self.pending@[j]@) =~= Seq::<PendingView>::empty() by {
                assert(self.pending@[j]@.len() == 0);
            }
            assert(self.pending() =~= Seq::new(5, |i: int| Seq::<PendingView>::empty()));
        }
        out
    }
}


/// The line of a finished playbook.
pub open spec fn finished_line(color: bool, name: Seq<char>, success: bool, secs: Seq<char>) -> Seq<SpanView> {
    seq![
        (name, if color { bold_style(Color::BrightWhite) } else { plain_style() }),
        (" "@, plain_style()),
        if success {
            ("completed"@, if color { color_style(Color::Green) } else { plain_style() })
        } else {
            ("failed"@, if color { bold_style(Color::Red) } else { plain_style() })
        },
        (" in "@ + secs + "s"@, plain_style()),
    ]
}

impl DenseCallback {
    /// A playbook starts: counts are dropped, and when verbose its name is
    /// shown.
    pub fn on_playbook_start(&mut self, name: &str) -> (out: Vec<Vec<Span>>)
        requires
            old(self).wf(),
        ensures
            final(self).wf(),
            final(self).spec_started(),
            final(self).stats() == Map::<Seq<char>, HostStats>::empty(),
            final(self).spec_config() == old(self).spec_config(),
            final(self).pending() == old(self).pending(),
            final(self).spec_current_task() == old(self).spec_current_task(),
            lines_view(out@) == if old(self).spec_config().verbosity > 0 {
                seq![seq![
                    ("Playbook"@, if old(self).spec_config().use_colors { color_style(Color::BrightBlack) } else { plain_style() }),
                    (": "@, plain_style()),
                    (name@, if old(self).spec_config().use_colors { color_style(Color::BrightWhite) } else { plain_style() }),
                ]]
            } else {
                Seq::<Seq<SpanView>>::empty()
            },
    {
        self.started = true;
        self.host_stats.clear();
        let mut out: Vec<Vec<Span>> = Vec::new();
        if self.config.verbosity > 0 {
            let color = self.config.use_colors;
            let mut l = Vec::new();
            push_span(&mut l, "Playbook", Style::fg_if(color, Color::BrightBlack));
            push_span(&mut l, ": ", Style::plain());
            push_span(&mut l, name, Style::fg_if(color, Color::BrightWhite));
            proof {
                assert(line_view(l@) =~= seq![
                    ("Playbook"@, if color { color_style(Color::BrightBlack) } else { plain_style() }),
                    (": "@, plain_style()),
                    (name@, if color { color_style(Color::BrightWhite) } else { plain_style() }),
                ]);
            }
            push_line(&mut out, l);
            proof {
                assert(lines_view(out@) =~= seq![seq![
                    ("Playbook"@, if color { color_style(Color::BrightBlack) } else { plain_style() }),
                    (": "@, plain_style()),
                    (name@, if color { color_style(Color::BrightWhite) } else { plain_style() }),
                ]]);
            }
        } else {
            proof {
                assert(lines_view(out@) =~= Seq::<Seq<SpanView>>::empty());
            }
        }
        out
    }

    /// The playbook ended: pending results, the recap, and once a playbook
    /// started its name, how it ended and `elapsed_secs` (the seconds it
    /// took, to two decimals).
    pub fn on_playbook_end(&mut self, name: &str, success: bool, elapsed_secs: &str) -> (out: Vec<Vec<Span>>)
        requires
            old(self).wf(),
            old(self).flushable(),
            recap_ok(old(self).spec_config(), old(self).hosts(), old(self).stats()),
        ensures
            final(self).wf(),
            final(self).pending() == Seq::new(5, |i: int| Seq::<PendingView>::empty()),
            final(self).stats() == old(self).stats(),
            final(self).spec_config() == old(self).spec_config(),
            lines_view(out@) == flush_lines(old(self).spec_config(), old(self).pending()) + recap(
                old(self).spec_config(),
                old(self).hosts(),
                old(self).stats(),
            ) + if old(self).spec_started() {
                seq![Seq::<SpanView>::empty(), finished_line(old(self).spec_config().use_colors, name@, success, elapsed_secs@)]
            } else {
                Seq::<Seq<SpanView>>::empty()
            },
    {
        let mut out = self.flush_task_results();
        let r = print_final_recap(&self.config, &self.host_stats);
        append_lines(&mut out, r);
        let ghost mid = lines_view(out@);
        if self.started {
            let color = self.config.use_colors;
            push_line(&mut out, blank());
            let mut l = Vec::new();
            push_span(&mut l, name, Style::bold_if(color, Color::BrightWhite));
            push_span(&mut l, " ", Style::plain());
            if success {
                push_span(&mut l, "completed", Style::fg_if(color, Color::Green));
            } else {
                push_span(&mut l, "failed", Style::bold_if(color, Color::Red));
            }
            let mut t = String::new();
            push_str(&mut t, " in ");
            push_str(&mut t, elapsed_secs);
            push_str(&mut t, "s");
            push_owned(&mut l, t, Style::plain());
            proof {
                assert(line_view(l@) =~= finished_line(color, name@, success, elapsed_secs@));
            }
            push_line(&mut out, l);
            proof {
                assert(lines_view(out@) =~= mid + seq![Seq::<SpanView>::empty(), finished_line(color, name@, success, elapsed_secs@)]);
            }
        } else {
            proof {
                assert(lines_view(out@) =~= mid + Seq::<Seq<SpanView>>::empty());
            }
        }
        out
    }

    /// A play starts: pending results are shown, then its header (and when
    /// verbose its host count); its hosts get empty counts.
    pub fn on_play_start(&mut self, name: &str, hosts: &Vec<String>) -> (out: Vec<Vec<Span>>)
        requires
            old(self).wf(),
            old(self).flushable(),
        ensures
            final(self).wf(),
            final(self).pending() == Seq::new(5, |i: int| Seq::<PendingView>::empty()),
            final(self).spec_config() == old(self).spec_config(),
            final(self).spec_started() == old(self).spec_started(),
            forall|k: Seq<char>| #[trigger] final(self).stats().contains_key(k) <==> (old(self).stats().contains_key(k)
                || views(hosts@).contains(k)),
            forall|k: Seq<char>| #[trigger] final(self).stats().contains_key(k) ==> final(self).stats()[k] == stats_of(
                old(self).stats(),
                k,
            ),
            lines_view(out@) == flush_lines(old(self).spec_config(), old(self).pending()) + seq![
                Seq::<SpanView>::empty(),
                header_line(old(self).spec_config().use_colors, "PLAY"@, name@),
            ] + if old(self).spec_config().verbosity > 0 {
                seq![seq![("  Targeting "@ + dec(hosts@.len()) + " hosts"@, plain_style())]]
            } else {
                Seq::<Seq<SpanView>>::empty()
            },
    {
        let mut out = self.flush_task_results();
        let ghost flushed = lines_view(out@);
        push_line(&mut out, blank());
        push_line(&mut out, header(self.config.use_colors, "PLAY", name));
        let ghost mid = lines_view(out@);
        if self.config.verbosity > 0 {
            let mut t = String::new();
            push_str(&mut t, "  Targeting ");
            push_dec(&mut t, hosts.len() as u64);
            push_str(&mut t, " hosts");
            push_line(&mut out, single(t.as_str(), Style::plain()));
            proof {
                assert(lines_view(out@) =~= mid + seq![seq![("  Targeting "@ + dec(hosts@.len()) + " hosts"@, plain_style())]]);
            }
        } else {
            proof {
                assert(lines_view(out@) =~= mid + Seq::<Seq<SpanView>>::empty());
            }
        }
        let ghost lines0 = lines_view(out@);
        let ghost p0 = self.pending();
        let mut i: usize = 0;
        while i < hosts.len()
            invariant
                i <= hosts.len(),
                self.wf(),
                forall|k: Seq<char>| #[trigger] self.stats().contains_key(k) <==> (old(self).stats().contains_key(k)
                    || views(hosts@.subrange(0, i as int)).contains(k)),
                forall|k: Seq<char>| #[trigger] self.stats().contains_key(k) ==> self.stats()[k] == stats_of(
                    old(self).stats(),
                    k,
                ),
                self.config == old(self).config,
                self.started == old(self).started,
                self.pending() == p0,
            decreases hosts.len() - i,
        {
            let ghost before = self.stats();
            self.host_stats.ensure(hosts[i].as_str(), HostStats { ok: 0, changed: 0, failed: 0, skipped: 0, unreachable: 0 });
            proof {
                let k0 = hosts@[i as int]@;
                assert forall|k: Seq<char>| #[trigger] self.stats().contains_key(k) implies self.stats()[k] == stats_of(
                    old(self).stats(),
                    k,
                ) by {
                    if before.contains_key(k) {
                        assert(self.stats()[k] == before[k]);
                    } else {
                        assert(k == k0);
                        assert(!old(self).stats().contains_key(k));
                    }
                }
                let prev = views(hosts@.subrange(0, i as int));
                let cur = views(hosts@.subrange(0, i + 1));
                assert(cur =~= prev.push(hosts@[i as int]@));
                assert forall|k: Seq<char>| cur.contains(k) <==> (prev.contains(k) || k == hosts@[i as int]@) by {
                    if cur.contains(k) {
                        let j = choose|j: int| 0 <= j < cur.len() && cur[j] == k;
                        if j < prev.len() {
                            assert(prev[j] == k);
                        }
                    }
                    if prev.contains(k) {
                        let j = choose|j: int| 0 <= j < prev.len() && prev[j] == k;
                        assert(cur[j] == k);
                    }
                    if k == hosts@[i as int]@ {
                        assert(cur[i as int] == k);
                    }
                }
            }
            i = i + 1;
        }
        proof {
            assert(hosts@.subrange(0, i as int) =~= hosts@);
        }
        out
    }

    /// A play ends: pending results are shown.
    pub fn on_play_end(&mut self, name: &str, success: bool) -> (out: Vec<Vec<Span>>)
        requires
            old(self).wf(),
            old(self).flushable(),
        ensures
            final(self).wf(),
            final(self).pending() == Seq::new(5, |i: int| Seq::<PendingView>::empty()),
            final(self).stats() == old(self).stats(),
            final(self).spec_config() == old(self).spec_config(),
            final(self).spec_started() == old(self).spec_started(),
            lines_view(out@) == flush_lines(old(self).spec_config(), old(self).pending()),
    {
        self.flush_task_results()
    }

    /// A task starts: when it is a new task, the pending results of the
    /// previous one are shown, then the new task's header.
    pub fn on_task_start(&mut self, name: &str, host: &str) -> (out: Vec<Vec<Span>>)
        requires
            old(self).wf(),
            old(self).flushable(),
        ensures
            final(self).wf(),
            final(self).stats() == old(self).stats(),
            final(self).spec_config() == old(self).spec_config(),
            final(self).spec_started() == old(self).spec_started(),
            final(self).spec_current_task() == Some(name@),
            old(self).spec_current_task() == Some(name@) ==> lines_view(out@).len() == 0 && final(self).pending()
                == old(self).pending(),
            old(self).spec_current_task() != Some(name@) ==> lines_view(out@) == flush_lines(
                old(self).spec_config(),
                old(self).pending(),
            ) + seq![Seq::<SpanView>::empty(), header_line(old(self).spec_config().use_colors, "TASK"@, name@)]
                && final(self).pending() == Seq::new(5, |i: int| Seq::<PendingView>::empty()),
    {
        let same = match &self.current_task_name {
            Some(t) => crate::text::str_eq(t.as_str(), name),
            None => false,
        };
        if same {
            let out: Vec<Vec<Span>> = Vec::new();
            proof {
                assert(lines_view(out@) =~= Seq::<Seq<SpanView>>::empty());
            }
            return out;
        }
        let mut out = self.flush_task_results();
        push_line(&mut out, blank());
        push_line(&mut out, header(self.config.use_colors, "TASK", name));
        self.current_task_name = Some(name.to_owned());
        self.task_header_printed = true;
        out
    }

    /// A task finished on a host: it is counted and waits, with its
    /// category, to be shown with the other hosts' results.
    pub fn on_task_complete(&mut self, result: &ExecutionResult)
        requires
            old(self).wf(),
        ensures
            final(self).wf(),
            final(self).spec_config() == old(self).spec_config(),
            final(self).spec_started() == old(self).spec_started(),
            final(self).spec_current_task() == old(self).spec_current_task(),
            final(self).stats() == old(self).stats().insert(
                result.host@,
                count_result(stats_of(old(self).stats(), result.host@), result.result.success, result.result.skipped, result.result.changed),
            ),
            ({
                let cat = category_of(result.result.success, result.result.skipped, result.result.changed);
                final(self).pending() == old(self).pending().update(
                    order_of(cat) as int,
                    old(self).pending()[order_of(cat) as int].push(
                        (result.host@, if !result.result.success { Some(result.result.message@) } else { None }),
                    ),
                )
            }),
    {
        let host = result.host.as_str();
        let cur = match self.host_stats.get(host) {
            Some(st) => st,
            None => HostStats { ok: 0, changed: 0, failed: 0, skipped: 0, unreachable: 0 },
        };
        let next = if !result.result.success {
            HostStats { failed: inc(cur.failed), ..cur }
        } else if result.result.skipped {
            HostStats { skipped: inc(cur.skipped), ..cur }
        } else if result.result.changed {
            HostStats { changed: inc(cur.changed), ..cur }
        } else {
            HostStats { ok: inc(cur.ok), ..cur }
        };
        self.host_stats.set(host, next);
        let cat = ResultCategory::from_execution_result(result);
        let i = cat.display_order() as usize;
        let acc = AccumulatedResult {
            host: result.host.clone(),
            msg: if !result.result.success {
                Some(result.result.message.clone())
            } else {
                None
            },
        };
        let ghost p = self.pending();
        let ghost av = pview(acc);
        let mut list = self.pending.remove(i);
        let ghost lv = pviews(list@);
        list.push(acc);
        proof {
            assert(pviews(list@) =~= lv.push(av));
        }
        self.pending.insert(i, list);
        proof {
            assert(self.pending() =~= p.update(i as int, p[i as int].push(av)));
        }
    }

    /// A handler was notified: pending results are shown, then the handler.
    pub fn on_handler_triggered(&mut self, name: &str) -> (out: Vec<Vec<Span>>)
        requires
            old(self).wf(),
            old(self).flushable(),
        ensures
            final(self).wf(),
            final(self).pending() == Seq::new(5, |i: int| Seq::<PendingView>::empty()),
            final(self).stats() == old(self).stats(),
            final(self).spec_config() == old(self).spec_config(),
            final(self).spec_started() == old(self).spec_started(),
            lines_view(out@) == flush_lines(old(self).spec_config(), old(self).pending()) + seq![
                Seq::<SpanView>::empty(),
                seq![
                    ("HANDLER"@, if old(self).spec_config().use_colors { bold_style(Color::BrightWhite) } else { plain_style() }),
                    (": "@, plain_style()),
                    (name@, if old(self).spec_config().use_colors { color_style(Color::Yellow) } else { plain_style() }),
                ],
            ],
    {
        let mut out = self.flush_task_results();
        let ghost flushed = lines_view(out@);
        let color = self.config.use_colors;
        push_line(&mut out, blank());
        let mut l = Vec::new();
        push_span(&mut l, "HANDLER", Style::bold_if(color, Color::BrightWhite));
        push_span(&mut l, ": ", Style::plain());
        push_span(&mut l, name, Style::fg_if(color, Color::Yellow));
        proof {
            assert(line_view(l@) =~= seq![
                    ("HANDLER"@, if color { bold_style(Color::BrightWhite) } else { plain_style() }),
                    (": "@, plain_style()),
                    (name@, if color { color_style(Color::Yellow) } else { plain_style() }),
                ]);
        }
        push_line(&mut out, l);
        proof {
            assert(lines_view(out@) =~= flushed + seq![
                Seq::<SpanView>::empty(),
                seq![
                    ("HANDLER"@, if color { bold_style(Color::BrightWhite) } else { plain_style() }),
                    (": "@, plain_style()),
                    (name@, if color { color_style(Color::Yellow) } else { plain_style() }),
                ],
            ]);
        }
        out
    }

    /// Facts were gathered for a host: shown above verbosity 1.
    pub fn on_facts_gathered(&self, host: &str) -> (out: Vec<Vec<Span>>)
        ensures
            lines_view(out@) == if self.spec_config().verbosity > 1 {
                seq![seq![
                    ("  "@, plain_style()),
                    ("facts"@, if self.spec_config().use_colors { color_style(Color::BrightBlack) } else { plain_style() }),
                    (": "@ + host@, plain_style()),
                ]]
            } else {
                Seq::<Seq<SpanView>>::empty()
            },
    {
        let mut out: Vec<Vec<Span>> = Vec::new();
        if self.config.verbosity > 1 {
            let mut l = Vec::new();
            push_span(&mut l, "  ", Style::plain());
            push_span(&mut l, "facts", Style::fg_if(self.config.use_colors, Color::BrightBlack));
            let mut t = String::new();
            push_str(&mut t, ": ");
            push_str(&mut t, host);
            push_owned(&mut l, t, Style::plain());
            proof {
                assert(line_view(l@) =~= seq![
                    ("  "@, plain_style()),
                    ("facts"@, if self.config.use_colors { color_style(Color::BrightBlack) } else { plain_style() }),
                    (": "@ + host@, plain_style()),
                ]);
            }
            push_line(&mut out, l);
            proof {
                assert(lines_view(out@) =~= seq![seq![
                    ("  "@, plain_style()),
                    ("facts"@, if self.config.use_colors { color_style(Color::BrightBlack) } else { plain_style() }),
                    (": "@ + host@, plain_style()),
                ]]);
            }
        } else {
            proof {
                assert(lines_view(out@) =~= Seq::<Seq<SpanView>>::empty());
            }
        }
        out
    }
}


impl Default for DenseCallback {
    fn default() -> (c: Self)
        ensures
            c.wf(),
            c.spec_config() == DenseConfig::default_spec(),
            c.stats() == Map::<Seq<char>, HostStats>::empty(),
            c.pending() == Seq::new(5, |i: int| Seq::<PendingView>::empty()),
            !c.spec_started(),
    {
        Self::new()
    }
}

} // verus!
