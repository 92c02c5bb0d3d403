//! Callback settings read from environment variables.
//!
//! The variables are handed in as the process lists them, names with values;
//! each value comes with what it reads as (JSON, else a boolean, an integer,
//! a finite float or the text itself), which is worked out where the
//! variables are read.
use vstd::prelude::*;
use crate::config::{
    config_settings, default_config_settings, default_settings, plugin_map, settings_of, CallbackConfig,
    ConfigSettings, PluginConfig, PluginSettings,
};
use crate::table::HostTable;
use crate::text::{
    chars_of, find_at, find_in, lemma_find_at_some, lowercase, occurs_at, push_char, starts_with_seq, str_eq,
    string_of_chars, to_lowercase, views,
};
use crate::types::{copy_json, jview, JsonNumber, JsonValue, JsonView};

verus! {

// ---------------------------------------------------------------------------
// Variables
// ---------------------------------------------------------------------------

/// Variables as names and values.
pub open spec fn vars_view(v: Seq<(String, String)>) -> Seq<(Seq<char>, Seq<char>)> {
    Seq::new(v.len(), |i: int| (v[i].0@, v[i].1@))
}

/// The value of the first variable called `name`.
pub open spec fn env_value(vs: Seq<(Seq<char>, Seq<char>)>, name: Seq<char>) -> Option<Seq<char>>
    decreases vs.len(),
{
    if vs.len() == 0 {
        None
    } else if vs[0].0 == name {
        Some(vs[0].1)
    } else {
        env_value(vs.drop_first(), name)
    }
}

/// The value of the first variable called `name`, if there is one.
pub fn env_lookup<'a>(vars: &'a Vec<(String, String)>, name: &str) -> (r: Option<&'a String>)
    ensures
        match r {
            Some(v) => env_value(vars_view(vars@), name@) == Some(v@),
            None => env_value(vars_view(vars@), name@) is None,
        },
{
    let ghost vs = vars_view(vars@);
    let mut i: usize = 0;
    proof {
        assert(vs.skip(0) =~= vs);
    }
    while i < vars.len()
        invariant
            i <= vars.len(),
            vs == vars_view(vars@),
            env_value(vs, name@) == env_value(vs.skip(i as int), name@),
        decreases vars.len() - i,
    {
        proof {
            assert(vs.skip(i as int)[0] == vs[i as int]);
            assert(vs.skip(i as int).drop_first() =~= vs.skip(i + 1));
        }
        if str_eq(vars[i].0.as_str(), name) {
            return Some(&vars[i].1);
        }
        i = i + 1;
    }
    None
}

/// A flag is set by `true` in any case, or by `1`.
pub open spec fn truthy(v: Seq<char>) -> bool {
    lowercase(v) == "true"@ || v == "1"@
}

/// Whether a flag value sets the flag.
pub fn is_truthy(v: &str) -> (b: bool)
    ensures
        b == truthy(v@),
{
    let lower = to_lowercase(v);
    str_eq(lower.as_str(), "true") || str_eq(v, "1")
}

// ---------------------------------------------------------------------------
// Small numbers
// ---------------------------------------------------------------------------

/// An ASCII digit.
pub open spec fn is_ascii_digit(c: char) -> bool {
    '0' <= c <= '9'
}

/// The value of a string of decimal digits.
pub open spec fn decimal_value(s: Seq<char>) -> int
    decreases s.len(),
{
    if s.len() == 0 {
        0
    } else {
        10 * decimal_value(s.drop_last()) + (s.last() as int - '0' as int)
    }
}

/// The digits part of a number: without a leading `+`.
pub open spec fn number_body(s: Seq<char>) -> Seq<char> {
    if s.len() > 0 && s[0] == '+' {
        s.drop_first()
    } else {
        s
    }
}

/// Every character is an ASCII digit.
pub open spec fn all_digits(s: Seq<char>) -> bool {
    forall|i: int| 0 <= i < s.len() ==> is_ascii_digit(#[trigger] s[i])
}

/// `s` as `u8` parses it: an optional `+`, then at least one digit, the
/// value at most 255.
pub open spec fn parsed_u8(s: Seq<char>) -> Option<u8> {
    let body = number_body(s);
    if body.len() > 0 && all_digits(body) && decimal_value(body) <= 255 {
        Some(decimal_value(body) as u8)
    } else {
        None
    }
}

/// Parses a small unsigned number.
pub fn parse_u8(s: &str) -> (r: Option<u8>)
    ensures
        r == parsed_u8(s@),
{
    let v = chars_of(s);
    let start: usize = if v.len() > 0 && v[0] == '+' { 1 } else { 0 };
    let ghost body = number_body(v@);
    proof {
        assert(body =~= v@.subrange(start as int, v@.len() as int));
    }
    if start >= v.len() {
        return None;
    }
    let mut value: u32 = 0;
    let mut i: usize = start;
    while i < v.len()
        invariant
            start <= i <= v@.len(),
            v@ == s@,
            start == (if v@.len() > 0 && v@[0] == '+' { 1usize } else { 0usize }),
            body == number_body(v@),
            body == v@.subrange(start as int, v@.len() as int),
            forall|j: int| start <= j < i ==> is_ascii_digit(#[trigger] v@[j]),
            value == decimal_value(v@.subrange(start as int, i as int)),
            value <= 255,
        decreases v.len() - i,
    {
        let c = v[i];
        if c < '0' || c > '9' {
            proof {
                assert(body[i - start] == c);
                assert(!is_ascii_digit(body[i - start]));
                assert(v@ == s@);
                assert(!all_digits(body));
                assert(parsed_u8(s@) is None);
            }
            return None;
        }
        proof {
            assert(v@.subrange(start as int, i + 1).drop_last() =~= v@.subrange(start as int, i as int));
            assert(v@.subrange(start as int, i + 1).last() == c);
        }
        let d: u32 = (c as u32) - ('0' as u32);
        let next = value * 10 + d;
        if next > 255 {
            proof {
                let k = i + 1 - start;
                assert(decimal_value(v@.subrange(start as int, i + 1)) == next);
                assert(body.subrange(0, k) =~= v@.subrange(start as int, i + 1));
                assert(v@ == s@);
                if all_digits(body) {
                    lemma_prefix_value_monotone(body, k, body.len() as int);
                    assert(body.subrange(0, body.len() as int) =~= body);
                }
            }
            return None;
        }
        value = next;
        i = i + 1;
    }
    proof {
        assert(v@.subrange(start as int, i as int) =~= body);
        assert forall|j: int| 0 <= j < body.len() implies is_ascii_digit(#[trigger] body[j]) by {
            assert(body[j] == v@[start + j]);
        }
    }
    Some(value as u8)
}

/// `s` as an unsigned number of at most `max` parses it (`str::parse` on
/// `u16`, `u32`, `u64` or `usize`): an optional `+`, then at least one
/// digit, the value at most `max`.
pub open spec fn parsed_bounded(s: Seq<char>, max: u64) -> Option<u64> {
    let body = number_body(s);
    if body.len() > 0 && all_digits(body) && decimal_value(body) <= max {
        Some(decimal_value(body) as u64)
    } else {
        None
    }
}

/// Parses an unsigned number of at most `max`.
pub fn parse_bounded(s: &str, max: u64) -> (r: Option<u64>)
    ensures
        r == parsed_bounded(s@, max),
        r matches Some(n) ==> n <= max,
{
    let v = chars_of(s);
    let start: usize = if v.len() > 0 && v[0] == '+' { 1 } else { 0 };
    let ghost body = number_body(v@);
    proof {
        assert(body =~= v@.subrange(start as int, v@.len() as int));
    }
    if start >= v.len() {
        return None;
    }
    let mut value: u128 = 0;
    let mut i: usize = start;
    while i < v.len()
        invariant
            start <= i <= v@.len(),
            v@ == s@,
            start == (if v@.len() > 0 && v@[0] == '+' { 1usize } else { 0usize }),
            body == number_body(v@),
            body == v@.subrange(start as int, v@.len() as int),
            forall|j: int| start <= j < i ==> is_ascii_digit(#[trigger] v@[j]),
            value == decimal_value(v@.subrange(start as int, i as int)),
            value <= max,
        decreases v.len() - i,
    {
        let c = v[i];
        if c < '0' || c > '9' {
            proof {
                assert(body[i - start] == c);
                assert(!is_ascii_digit(body[i - start]));
                assert(!all_digits(body));
            }
            return None;
        }
        proof {
            assert(v@.subrange(start as int, i + 1).drop_last() =~= v@.subrange(start as int, i as int));
            assert(v@.subrange(start as int, i + 1).last() == c);
        }
        let d: u128 = (c as u128) - ('0' as u128);
        let next = value * 10 + d;
        if next > max as u128 {
            proof {
                let k = i + 1 - start;
                assert(decimal_value(v@.subrange(start as int, i + 1)) == next);
                assert(body.subrange(0, k) =~= v@.subrange(start as int, i + 1));
                if all_digits(body) {
                    lemma_prefix_value_monotone(body, k, body.len() as int);
                    assert(body.subrange(0, body.len() as int) =~= body);
                }
            }
            return None;
        }
        value = next;
        i = i + 1;
    }
    proof {
        assert(v@.subrange(start as int, i as int) =~= body);
        assert forall|j: int| 0 <= j < body.len() implies is_ascii_digit(#[trigger] body[j]) by {
            assert(body[j] == v@[start + j]);
        }
    }
    Some(value as u64)
}

/// `v` is `true` in any ASCII case, or `1` (`eq_ignore_ascii_case("true")`
/// or `== "1"`).
pub open spec fn ascii_truthy(v: Seq<char>) -> bool {
    (v.len() == 4 && ascii_lower(v[0]) == 't' && ascii_lower(v[1]) == 'r' && ascii_lower(v[2]) == 'u'
        && ascii_lower(v[3]) == 'e') || v == "1"@
}

/// A character with ASCII capitals made small.
pub open spec fn ascii_lower(c: char) -> char {
    if 'A' <= c <= 'Z' {
        ((c as u32) + 32) as char
    } else {
        c
    }
}

fn ascii_lower_exec(c: char) -> (r: char)
    ensures
        r == ascii_lower(c),
{
    if 'A' <= c && c <= 'Z' {
        ((c as u8) + 32) as char
    } else {
        c
    }
}

/// Whether a flag value is `true` in any ASCII case, or `1`.
pub fn is_ascii_truthy(v: &str) -> (b: bool)
    ensures
        b == ascii_truthy(v@),
{
    proof {
        reveal_strlit("1");
    }
    let cs = chars_of(v);
    if cs.len() == 4 && ascii_lower_exec(cs[0]) == 't' && ascii_lower_exec(cs[1]) == 'r' && ascii_lower_exec(cs[2]) == 'u'
        && ascii_lower_exec(cs[3]) == 'e' {
        return true;
    }
    str_eq(v, "1")
}

/// Digits added at the end never lower the value.
proof fn lemma_prefix_value_monotone(s: Seq<char>, k: int, j: int)
    requires
        0 <= k <= j <= s.len(),
        forall|i: int| 0 <= i < j ==> is_ascii_digit(#[trigger] s[i]),
    ensures
        decimal_value(s.subrange(0, k)) <= decimal_value(s.subrange(0, j)),
    decreases j - k,
{
    if k < j {
        lemma_prefix_value_monotone(s, k, j - 1);
        assert(s.subrange(0, j).drop_last() =~= s.subrange(0, j - 1));
        lemma_decimal_value_nonneg(s.subrange(0, j - 1));
        assert(is_ascii_digit(s[j - 1]));
    }
}

/// The value of digits is not negative.
proof fn lemma_decimal_value_nonneg(s: Seq<char>)
    requires
        forall|i: int| 0 <= i < s.len() ==> is_ascii_digit(#[trigger] s[i]),
    ensures
        decimal_value(s) >= 0,
    decreases s.len(),
{
    if s.len() > 0 {
        assert forall|i: int| 0 <= i < s.drop_last().len() implies is_ascii_digit(#[trigger] s.drop_last()[i]) by {
            assert(s.drop_last()[i] == s[i]);
        }
        lemma_decimal_value_nonneg(s.drop_last());
        assert(is_ascii_digit(s[s.len() - 1]));
    }
}


// ---------------------------------------------------------------------------
// Lists
// ---------------------------------------------------------------------------

/// The pieces of `s` between occurrences of `c` (`str::split`): one piece
/// more than there are `c`s, empty pieces included.
pub open spec fn split_on(s: Seq<char>, c: char) -> Seq<Seq<char>>
    decreases s.len(),
{
    if s.len() == 0 {
        seq![Seq::empty()]
    } else {
        let r = split_on(s.drop_last(), c);
        if s.last() == c {
            r.push(Seq::empty())
        } else {
            r.update(r.len() - 1, r.last().push(s.last()))
        }
    }
}

/// There is always a piece.
pub proof fn lemma_split_on_len(s: Seq<char>, c: char)
    ensures
        split_on(s, c).len() >= 1,
    decreases s.len(),
{
    if s.len() > 0 {
        lemma_split_on_len(s.drop_last(), c);
    }
}

/// The pieces of `s` between the occurrences of `c`.
pub fn split_char(s: &str, c: char) -> (r: Vec<String>)
    ensures
        views(r@) == split_on(s@, c),
{
    let v = chars_of(s);
    let mut pieces: Vec<String> = Vec::new();
    let mut cur = String::new();
    let mut i: usize = 0;
    proof {
        assert(v@.take(0) =~= Seq::<char>::empty());
        assert(views(pieces@).push(cur@) =~= split_on(v@.take(0), c));
    }
    while i < v.len()
        invariant
            i <= v@.len(),
            views(pieces@).push(cur@) == split_on(v@.take(i as int), c),
        decreases v.len() - i,
    {
        let ghost before = views(pieces@);
        proof {
            assert(v@.take(i + 1).drop_last() =~= v@.take(i as int));
            assert(v@.take(i + 1).last() == v@[i as int]);
        }
        if v[i] == c {
            let done = cur;
            pieces.push(done);
            cur = String::new();
            proof {
                assert(views(pieces@) =~= before.push(done@));
                assert(cur@ =~= Seq::<char>::empty());
            }
        } else {
            let ghost old_cur = cur@;
            push_char(&mut cur, v[i]);
            proof {
                assert(views(pieces@).push(cur@) =~= before.push(old_cur).update(before.len() as int, old_cur.push(
                    v@[i as int],
                )));
            }
        }
        i = i + 1;
    }
    let ghost before = views(pieces@);
    pieces.push(cur);
    proof {
        assert(v@.take(i as int) =~= s@);
        assert(views(pieces@) =~= before.push(cur@));
    }
    pieces
}

/// Unicode white space (the `White_Space` property that `str::trim` goes by).
pub open spec fn is_white(c: char) -> bool {
    ||| '\u{9}' <= c <= '\u{d}'
    ||| c == ' '
    ||| c == '\u{85}'
    ||| c == '\u{a0}'
    ||| c == '\u{1680}'
    ||| '\u{2000}' <= c <= '\u{200a}'
    ||| c == '\u{2028}'
    ||| c == '\u{2029}'
    ||| c == '\u{202f}'
    ||| c == '\u{205f}'
    ||| c == '\u{3000}'
}

fn white(c: char) -> (b: bool)
    ensures
        b == is_white(c),
{
    ('\u{9}' <= c && c <= '\u{d}') || c == ' ' || c == '\u{85}' || c == '\u{a0}' || c == '\u{1680}' || ('\u{2000}'
        <= c && c <= '\u{200a}') || c == '\u{2028}' || c == '\u{2029}' || c == '\u{202f}' || c == '\u{205f}' || c
        == '\u{3000}'
}

/// The white space at the start of `s`.
pub open spec fn leading_white(s: Seq<char>) -> nat
    decreases s.len(),
{
    if s.len() > 0 && is_white(s[0]) {
        1 + leading_white(s.drop_first())
    } else {
        0
    }
}

/// The white space at the end of `s`.
pub open spec fn trailing_white(s: Seq<char>) -> nat
    decreases s.len(),
{
    if s.len() > 0 && is_white(s.last()) {
        1 + trailing_white(s.drop_last())
    } else {
        0
    }
}

/// `s` without white space at either end (`str::trim`).
pub open spec fn trimmed(s: Seq<char>) -> Seq<char> {
    let t = s.skip(leading_white(s) as int);
    t.take(t.len() - trailing_white(t))
}

/// Leading and trailing white space are no longer than the text.
pub proof fn lemma_white_bounds(s: Seq<char>)
    ensures
        leading_white(s) <= s.len(),
        trailing_white(s) <= s.len(),
    decreases s.len(),
{
    if s.len() > 0 {
        lemma_white_bounds(s.drop_first());
        lemma_white_bounds(s.drop_last());
    }
}

/// `s` without white space at either end.
pub fn trim_text(s: &str) -> (r: String)
    ensures
        r@ == trimmed(s@),
{
    let v = chars_of(s);
    let mut lo: usize = 0;
    proof {
        assert(v@.skip(0) =~= v@);
    }
    while lo < v.len() && white(v[lo])
        invariant
            lo <= v@.len(),
            leading_white(v@) == lo + leading_white(v@.skip(lo as int)),
        decreases v.len() - lo,
    {
        proof {
            assert(v@.skip(lo as int)[0] == v@[lo as int]);
            assert(v@.skip(lo as int).drop_first() =~= v@.skip(lo + 1));
        }
        lo = lo + 1;
    }
    proof {
        if lo < v@.len() {
            assert(v@.skip(lo as int)[0] == v@[lo as int]);
        }
        assert(leading_white(v@) == lo);
    }
    let ghost t = v@.skip(lo as int);
    let mut hi: usize = v.len();
    proof {
        assert(t.take(t.len() as int) =~= t);
    }
    while hi > lo && white(v[hi - 1])
        invariant
            lo <= hi <= v@.len(),
            t == v@.skip(lo as int),
            trailing_white(t) == (v@.len() - hi) + trailing_white(t.take(hi - lo)),
        decreases hi - lo,
    {
        proof {
            let u = t.take(hi - lo);
            assert(u.last() == v@[hi - 1]);
            assert(u.drop_last() =~= t.take(hi - 1 - lo));
        }
        hi = hi - 1;
    }
    proof {
        let u = t.take(hi - lo);
        if hi > lo {
            assert(u.last() == v@[hi - 1]);
        }
        assert(trailing_white(u) == 0);
        assert(t.take(t.len() - trailing_white(t)) =~= v@.subrange(lo as int, hi as int));
    }
    string_of_chars(&v, lo, hi)
}

/// The items of a comma-separated list, each without surrounding white
/// space.
pub open spec fn list_items(s: Seq<char>) -> Seq<Seq<char>> {
    split_on(s, ',').map_values(|p: Seq<char>| trimmed(p))
}

/// The items of a comma-separated list.
pub fn comma_list(s: &str) -> (r: Vec<String>)
    ensures
        views(r@) == list_items(s@),
{
    let pieces = split_char(s, ',');
    let mut r: Vec<String> = Vec::new();
    let mut i: usize = 0;
    while i < pieces.len()
        invariant
            i <= pieces.len(),
            views(pieces@) == split_on(s@, ','),
            views(r@) == list_items(s@).take(i as int),
        decreases pieces.len() - i,
    {
        let t = trim_text(pieces[i].as_str());
        let ghost before = views(r@);
        r.push(t);
        proof {
            assert(views(pieces@)[i as int] == pieces@[i as int]@);
            assert(views(r@) =~= before.push(t@));
            assert(views(r@) =~= list_items(s@).take(i + 1));
        }
        i = i + 1;
    }
    proof {
        assert(list_items(s@).take(i as int) =~= list_items(s@));
    }
    r
}


// ---------------------------------------------------------------------------
// Per-plugin variables
// ---------------------------------------------------------------------------

/// The suffixes that belong to the general settings, not to a plugin.
pub open spec fn reserved_suffix(s: Seq<char>) -> bool {
    ||| s == "VERBOSITY"@
    ||| s == "SHOW_DIFF"@
    ||| s == "CHECK_MODE"@
    ||| s == "OUTPUT"@
    ||| s == "NO_COLOR"@
    ||| s == "ENABLED"@
    ||| s == "SHOW_TIMING"@
}

/// The plugin and option a variable `<prefix>_<PLUGIN>_<OPTION>` sets, both
/// in lower case; none for other variables.
pub open spec fn plugin_var(prefix: Seq<char>, key: Seq<char>) -> Option<(Seq<char>, Seq<char>)> {
    let p = prefix + "_"@;
    if starts_with_seq(key, p) {
        let suffix = key.subrange(p.len() as int, key.len() as int);
        if reserved_suffix(suffix) {
            None
        } else {
            match find_at(suffix, "_"@, 0) {
                Some(i) => Some(
                    (
                        lowercase(suffix.subrange(0, i)),
                        lowercase(suffix.subrange(i + "_"@.len(), suffix.len() as int)),
                    ),
                ),
                None => None,
            }
        }
    } else {
        None
    }
}

/// A JSON value as a 64-bit integer, if it is one that fits.
pub open spec fn view_as_i64(v: JsonView) -> Option<i64> {
    match v {
        JsonView::Number(JsonNumber::PosInt(u)) => if u <= i64::MAX {
            Some(u as i64)
        } else {
            None
        },
        JsonView::Number(JsonNumber::NegInt(i)) => Some(i),
        _ => None,
    }
}

/// A JSON value as text, if it is a string.
pub open spec fn view_as_str(v: JsonView) -> Option<Seq<char>> {
    match v {
        JsonView::Str(s) => Some(s),
        _ => None,
    }
}

/// A plugin's settings after one of its variables: `enabled` takes a
/// boolean (or the text `true`), `priority` an integer (cut to 32 bits),
/// `output` a text; any other option is kept as given.
pub open spec fn env_option(cur: PluginSettings, option: Seq<char>, v: JsonView) -> PluginSettings {
    if option == "enabled"@ {
        PluginSettings {
            enabled: match v {
                JsonView::Bool(b) => b,
                _ => v == JsonView::Str("true"@),
            },
            ..cur
        }
    } else if option == "priority"@ {
        PluginSettings {
            priority: match view_as_i64(v) {
                Some(n) => Some(n as i32),
                None => None,
            },
            ..cur
        }
    } else if option == "output"@ {
        PluginSettings { output: view_as_str(v), ..cur }
    } else {
        PluginSettings { options: cur.options.insert(option, v), ..cur }
    }
}

/// The plugin settings the variables make, in the order they come, each
/// plugin starting from disabled defaults.
pub open spec fn env_plugins(
    prefix: Seq<char>,
    vs: Seq<(Seq<char>, Seq<char>)>,
    parsed: Seq<JsonView>,
) -> Map<Seq<char>, PluginSettings>
    decreases vs.len(),
{
    if vs.len() == 0 {
        Map::empty()
    } else {
        let m = env_plugins(prefix, vs.drop_last(), parsed.drop_last());
        match plugin_var(prefix, vs.last().0) {
            Some(po) => {
                let cur = if m.contains_key(po.0) { m[po.0] } else { default_settings(false) };
                m.insert(po.0, env_option(cur, po.1, parsed.last()))
            },
            None => m,
        }
    }
}

/// The contents of JSON values.
pub open spec fn jviews(v: Seq<JsonValue>) -> Seq<JsonView> {
    Seq::new(v.len(), |i: int| jview(v[i]))
}

/// The plugin and option a variable sets, if it is a plugin's.
pub fn plugin_var_of(prefix: &str, key: &str) -> (r: Option<(String, String)>)
    ensures
        match r {
            Some(po) => plugin_var(prefix@, key@) == Some((po.0@, po.1@)),
            None => plugin_var(prefix@, key@) is None,
        },
{
    let mut p = String::new();
    crate::text::push_str(&mut p, prefix);
    crate::text::push_str(&mut p, "_");
    let kv = chars_of(key);
    let pv = chars_of(p.as_str());
    if !crate::text::occurs_at_exec(&kv, &pv, 0) {
        return None;
    }
    let suffix = string_of_chars(&kv, pv.len(), kv.len());
    let sx = suffix.as_str();
    if str_eq(sx, "VERBOSITY") || str_eq(sx, "SHOW_DIFF") || str_eq(sx, "CHECK_MODE") || str_eq(sx, "OUTPUT")
        || str_eq(sx, "NO_COLOR") || str_eq(sx, "ENABLED") || str_eq(sx, "SHOW_TIMING") {
        return None;
    }
    let sv = chars_of(sx);
    let us = chars_of("_");
    match find_in(&sv, &us, 0) {
        Some(i) => {
            proof {
                lemma_find_at_some(sv@, us@, 0);
            }
            let plugin = to_lowercase(string_of_chars(&sv, 0, i).as_str());
            let option = to_lowercase(string_of_chars(&sv, i + us.len(), sv.len()).as_str());
            Some((plugin, option))
        },
        None => None,
    }
}

/// The settings of a plugin after one of its variables.
fn apply_option(pc: &mut PluginConfig, option: &str, value: &JsonValue)
    requires
        old(pc).wf(),
    ensures
        final(pc).wf(),
        settings_of(*final(pc)) == env_option(settings_of(*old(pc)), option@, jview(*value)),
{
    if str_eq(option, "enabled") {
        pc.enabled = match value.as_bool() {
            Some(b) => b,
            None => match value.as_str() {
                Some(t) => str_eq(t, "true"),
                None => false,
            },
        };
    } else if str_eq(option, "priority") {
        pc.priority = match value.as_i64() {
            Some(n) => Some(n as i32),
            None => None,
        };
    } else if str_eq(option, "output") {
        pc.output = match value.as_str() {
            Some(t) => Some(t.to_owned()),
            None => None,
        };
    } else {
        let c = copy_json(value);
        pc.options.set(option, c);
        proof {
            assert(crate::config::json_map(pc.options@) =~= crate::config::json_map(old(pc).options@).insert(
                option@,
                jview(*value),
            ));
        }
    }
}

/// The plugin settings the variables make.
pub fn load_plugin_env_vars(prefix: &str, vars: &Vec<(String, String)>, parsed: &Vec<JsonValue>) -> (r: HostTable<
    PluginConfig,
>)
    requires
        parsed@.len() == vars@.len(),
    ensures
        r.wf(),
        forall|k: Seq<char>| #[trigger] r@.contains_key(k) ==> r@[k].wf(),
        plugin_map(r) == env_plugins(prefix@, vars_view(vars@), jviews(parsed@)),
{
    let ghost vs = vars_view(vars@);
    let ghost ps = jviews(parsed@);
    let mut t: HostTable<PluginConfig> = HostTable::new();
    let mut i: usize = 0;
    proof {
        assert(vs.take(0) =~= Seq::<(Seq<char>, Seq<char>)>::empty());
        assert(plugin_map(t) =~= Map::<Seq<char>, PluginSettings>::empty());
    }
    while i < vars.len()
        invariant
            i <= vars.len(),
            parsed@.len() == vars@.len(),
            vs == vars_view(vars@),
            ps == jviews(parsed@),
            t.wf(),
            forall|k: Seq<char>| #[trigger] t@.contains_key(k) ==> t@[k].wf(),
            plugin_map(t) == env_plugins(prefix@, vs.take(i as int), ps.take(i as int)),
        decreases vars.len() - i,
    {
        proof {
            assert(vs.take(i + 1).drop_last() =~= vs.take(i as int));
            assert(ps.take(i + 1).drop_last() =~= ps.take(i as int));
            assert(vs.take(i + 1).last() == (vars@[i as int].0@, vars@[i as int].1@));
            assert(ps.take(i + 1).last() == jview(parsed@[i as int]));
        }
        let ghost before = plugin_map(t);
        match plugin_var_of(prefix, vars[i].0.as_str()) {
            Some((plugin, option)) => {
                let ghost had = t@.contains_key(plugin@);
                t.ensure(plugin.as_str(), PluginConfig::default());
                let pc = t.get_mut(plugin.as_str());
                apply_option(pc, option.as_str(), &parsed[i]);
                proof {
                    assert(plugin_map(t) =~= before.insert(
                        plugin@,
                        env_option(
                            if before.contains_key(plugin@) { before[plugin@] } else { default_settings(false) },
                            option@,
                            jview(parsed@[i as int]),
                        ),
                    ));
                }
            },
            None => {},
        }
        i = i + 1;
    }
    proof {
        assert(vs.take(i as int) =~= vs);
        assert(ps.take(i as int) =~= ps);
    }
    t
}


// ---------------------------------------------------------------------------
// The settings
// ---------------------------------------------------------------------------

/// A flag variable: its value sets the flag, or the default stands.
pub open spec fn env_flag(vs: Seq<(Seq<char>, Seq<char>)>, name: Seq<char>, default: bool) -> bool {
    match env_value(vs, name) {
        Some(v) => truthy(v),
        None => default,
    }
}

/// The settings the variables with `prefix` make: `<prefix>` names the
/// plugin, `_ENABLED` lists the enabled plugins, `_VERBOSITY` sets the
/// verbosity (at most 4) where it is a number, `_SHOW_DIFF`, `_CHECK_MODE`
/// and `_SHOW_TIMING` set flags, `_OUTPUT` the output; `_NO_COLOR` when
/// set, or `NO_COLOR` when present, turns colors off; the plugins' own
/// variables make the plugin settings; the rest are the defaults.
pub open spec fn env_settings(
    prefix: Seq<char>,
    vs: Seq<(Seq<char>, Seq<char>)>,
    parsed: Seq<JsonView>,
) -> ConfigSettings {
    let d = default_config_settings();
    ConfigSettings {
        plugin: match env_value(vs, prefix) {
            Some(v) => v,
            None => d.plugin,
        },
        default_plugin: match env_value(vs, prefix) {
            Some(v) => v,
            None => d.default_plugin,
        },
        enabled_plugins: match env_value(vs, prefix + "_ENABLED"@) {
            Some(v) => list_items(v),
            None => d.enabled_plugins,
        },
        verbosity: match env_value(vs, prefix + "_VERBOSITY"@) {
            Some(v) => match parsed_u8(v) {
                Some(l) => if l < 4 { l } else { 4 },
                None => d.verbosity,
            },
            None => d.verbosity,
        },
        show_diff: env_flag(vs, prefix + "_SHOW_DIFF"@, d.show_diff),
        check_mode: env_flag(vs, prefix + "_CHECK_MODE"@, d.check_mode),
        output: match env_value(vs, prefix + "_OUTPUT"@) {
            Some(v) => v,
            None => d.output,
        },
        use_colors: !env_flag(vs, prefix + "_NO_COLOR"@, false) && env_value(vs, "NO_COLOR"@) is None,
        show_task_timing: env_flag(vs, prefix + "_SHOW_TIMING"@, d.show_task_timing),
        plugins: env_plugins(prefix, vs, parsed),
        ..d
    }
}

/// `prefix` followed by `suffix`.
fn joined(prefix: &str, suffix: &str) -> (r: String)
    ensures
        r@ == prefix@ + suffix@,
{
    let mut r = String::new();
    crate::text::push_str(&mut r, prefix);
    crate::text::push_str(&mut r, suffix);
    r
}

/// Reads a flag variable.
fn flag_of(vars: &Vec<(String, String)>, name: &str, default: bool) -> (b: bool)
    ensures
        b == env_flag(vars_view(vars@), name@, default),
{
    match env_lookup(vars, name) {
        Some(v) => is_truthy(v.as_str()),
        None => default,
    }
}

/// The callback settings the variables with `prefix` make; `parsed[i]` is
/// what the value of `vars[i]` reads as.
pub fn load_from_env(prefix: &str, vars: &Vec<(String, String)>, parsed: &Vec<JsonValue>) -> (c: CallbackConfig)
    requires
        parsed@.len() == vars@.len(),
    ensures
        c.wf(),
        config_settings(c) == env_settings(prefix@, vars_view(vars@), jviews(parsed@)),
{
    let ghost vs = vars_view(vars@);
    let mut c = CallbackConfig::default();
    match env_lookup(vars, prefix) {
        Some(v) => {
            c.plugin = v.clone();
            c.default_plugin = v.clone();
        },
        None => {},
    }
    match env_lookup(vars, joined(prefix, "_ENABLED").as_str()) {
        Some(v) => {
            c.enabled_plugins = comma_list(v.as_str());
        },
        None => {},
    }
    match env_lookup(vars, joined(prefix, "_VERBOSITY").as_str()) {
        Some(v) => match parse_u8(v.as_str()) {
            Some(level) => {
                c.verbosity = if level < 4 { level } else { 4 };
            },
            None => {},
        },
        None => {},
    }
    c.show_diff = flag_of(vars, joined(prefix, "_SHOW_DIFF").as_str(), c.show_diff);
    c.check_mode = flag_of(vars, joined(prefix, "_CHECK_MODE").as_str(), c.check_mode);
    match env_lookup(vars, joined(prefix, "_OUTPUT").as_str()) {
        Some(v) => {
            c.output = v.clone();
        },
        None => {},
    }
    if flag_of(vars, joined(prefix, "_NO_COLOR").as_str(), false) {
        c.use_colors = false;
    }
    if env_lookup(vars, "NO_COLOR").is_some() {
        c.use_colors = false;
    }
    c.show_task_timing = flag_of(vars, joined(prefix, "_SHOW_TIMING").as_str(), c.show_task_timing);
    c.plugins = load_plugin_env_vars(prefix, vars, parsed);
    proof {
        assert(config_settings(c) =~= env_settings(prefix@, vs, jviews(parsed@)));
    }
    c
}


// ---------------------------------------------------------------------------
// The loader
// ---------------------------------------------------------------------------

/// `rel` appended to the directory `base` as a path (`Path::join` of a
/// relative path): a separator goes between them unless `base` is empty or
/// ends with one.
pub open spec fn path_join(base: Seq<char>, rel: Seq<char>) -> Seq<char> {
    if base.len() == 0 || base.last() == '/' {
        base + rel
    } else {
        base + "/"@ + rel
    }
}

/// `rel` appended to the directory `base`.
pub fn join_path(base: &str, rel: &str) -> (r: String)
    ensures
        r@ == path_join(base@, rel@),
{
    let v = chars_of(base);
    let mut r = String::new();
    crate::text::push_str(&mut r, base);
    if v.len() > 0 && v[v.len() - 1] != '/' {
        crate::text::push_str(&mut r, "/");
    }
    crate::text::push_str(&mut r, rel);
    r
}

/// Where callback configuration files are looked for, in order: the system,
/// the user's home (when known), the XDG configuration directory (when
/// set), then the working directory.
pub open spec fn standard_paths(home: Option<Seq<char>>, xdg: Option<Seq<char>>) -> Seq<Seq<char>> {
    seq!["/etc/rustible/callbacks.toml"@, "/etc/rustible/callbacks.yml"@] + (match home {
        Some(h) => seq![
            path_join(h, ".rustible/callbacks.toml"@),
            path_join(h, ".rustible/callbacks.yml"@),
            path_join(h, ".config/rustible/callbacks.toml"@),
        ],
        None => Seq::empty(),
    }) + (match xdg {
        Some(x) => seq![path_join(x, "rustible/callbacks.toml"@)],
        None => Seq::empty(),
    }) + seq!["rustible-callbacks.toml"@, ".rustible/callbacks.toml"@]
}

/// Where callback configuration files are looked for, given the home and
/// XDG configuration directories.
pub fn standard_config_paths(home: Option<&str>, xdg: Option<&str>) -> (r: Vec<String>)
    ensures
        views(r@) == standard_paths(
            match home {
                Some(h) => Some(h@),
                None => None,
            },
            match xdg {
                Some(x) => Some(x@),
                None => None,
            },
        ),
{
    let mut r: Vec<String> = Vec::new();
    r.push("/etc/rustible/callbacks.toml".to_owned());
    r.push("/etc/rustible/callbacks.yml".to_owned());
    match home {
        Some(h) => {
            r.push(join_path(h, ".rustible/callbacks.toml"));
            r.push(join_path(h, ".rustible/callbacks.yml"));
            r.push(join_path(h, ".config/rustible/callbacks.toml"));
        },
        None => {},
    }
    match xdg {
        Some(x) => {
            r.push(join_path(x, "rustible/callbacks.toml"));
        },
        None => {},
    }
    r.push("rustible-callbacks.toml".to_owned());
    r.push(".rustible/callbacks.toml".to_owned());
    proof {
        assert(views(r@) =~= standard_paths(
            match home {
                Some(h) => Some(h@),
                None => None,
            },
            match xdg {
                Some(x) => Some(x@),
                None => None,
            },
        ));
    }
    r
}

/// Settings merged in order, later ones over earlier ones.
pub open spec fn merged_all(start: ConfigSettings, cs: Seq<ConfigSettings>) -> ConfigSettings
    decreases cs.len(),
{
    if cs.len() == 0 {
        start
    } else {
        crate::config::merge_config(merged_all(start, cs.drop_last()), cs.last())
    }
}

/// The settings of configurations.
pub open spec fn settings_seq(cs: Seq<CallbackConfig>) -> Seq<ConfigSettings> {
    Seq::new(cs.len(), |i: int| config_settings(cs[i]))
}

/// Where callback settings come from, and the overrides from the command
/// line.
#[derive(Debug)]
pub struct CallbackConfigLoader {
    /// Configuration files to read, in order.
    pub config_files: Vec<String>,
    /// The prefix of the environment variables, if they are read.
    pub env_prefix: Option<String>,
    /// Settings given on the command line.
    pub cli_overrides: CallbackConfig,
    /// Whether the standard locations are searched.
    pub load_standard_locations: bool,
}

impl CallbackConfigLoader {
    /// A loader that reads the standard locations and the variables
    /// prefixed `RUSTIBLE_CALLBACK`, with no overrides.
    pub fn new() -> (l: Self)
        ensures
            l.config_files@.len() == 0,
            l.env_prefix matches Some(p) && p@ == "RUSTIBLE_CALLBACK"@,
            l.cli_overrides.wf(),
            config_settings(l.cli_overrides) == default_config_settings(),
            l.load_standard_locations,
    {
        CallbackConfigLoader {
            config_files: Vec::new(),
            env_prefix: Some("RUSTIBLE_CALLBACK".to_owned()),
            cli_overrides: CallbackConfig::default(),
            load_standard_locations: true,
        }
    }

    /// Also reads the file at `path`, after those added before.
    pub fn with_file(self, path: &str) -> (l: Self)
        ensures
            views(l.config_files@) == views(self.config_files@).push(path@),
            l.env_prefix == self.env_prefix,
            l.cli_overrides == self.cli_overrides,
            l.load_standard_locations == self.load_standard_locations,
    {
        let mut l = self;
        let ghost before = views(l.config_files@);
        l.config_files.push(path.to_owned());
        proof {
            assert(views(l.config_files@) =~= before.push(path@));
        }
        l
    }

    /// Reads the variables with `prefix`.
    pub fn with_env_prefix(self, prefix: &str) -> (l: Self)
        ensures
            l.env_prefix matches Some(p) && p@ == prefix@,
            l.config_files == self.config_files,
            l.cli_overrides == self.cli_overrides,
            l.load_standard_locations == self.load_standard_locations,
    {
        CallbackConfigLoader { env_prefix: Some(prefix.to_owned()), ..self }
    }

    /// Reads no variables.
    pub fn without_env(self) -> (l: Self)
        ensures
            l == (CallbackConfigLoader { env_prefix: None, ..self }),
    {
        CallbackConfigLoader { env_prefix: None, ..self }
    }

    /// Does not search the standard locations.
    pub fn without_standard_locations(self) -> (l: Self)
        ensures
            l == (CallbackConfigLoader { load_standard_locations: false, ..self }),
    {
        CallbackConfigLoader { load_standard_locations: false, ..self }
    }

    /// Overrides the plugin.
    pub fn with_plugin(self, plugin: &str) -> (l: Self)
        ensures
            l.cli_overrides.plugin@ == plugin@,
            config_settings(l.cli_overrides) == (ConfigSettings {
                plugin: plugin@,
                ..config_settings(self.cli_overrides)
            }),
            l.cli_overrides.wf() == self.cli_overrides.wf(),
            l.config_files == self.config_files,
            l.env_prefix == self.env_prefix,
            l.load_standard_locations == self.load_standard_locations,
    {
        let mut l = self;
        l.cli_overrides.plugin = plugin.to_owned();
        l
    }

    /// Overrides the verbosity.
    pub fn with_verbosity(self, level: u8) -> (l: Self)
        ensures
            config_settings(l.cli_overrides) == (ConfigSettings {
                verbosity: level,
                ..config_settings(self.cli_overrides)
            }),
            l.cli_overrides.wf() == self.cli_overrides.wf(),
            l.config_files == self.config_files,
            l.env_prefix == self.env_prefix,
            l.load_standard_locations == self.load_standard_locations,
    {
        let mut l = self;
        l.cli_overrides.verbosity = level;
        l
    }

    /// Overrides whether diffs are shown.
    pub fn with_show_diff(self, show: bool) -> (l: Self)
        ensures
            config_settings(l.cli_overrides) == (ConfigSettings {
                show_diff: show,
                ..config_settings(self.cli_overrides)
            }),
            l.cli_overrides.wf() == self.cli_overrides.wf(),
            l.config_files == self.config_files,
            l.env_prefix == self.env_prefix,
            l.load_standard_locations == self.load_standard_locations,
    {
        let mut l = self;
        l.cli_overrides.show_diff = show;
        l
    }

    /// Overrides check mode.
    pub fn with_check_mode(self, check: bool) -> (l: Self)
        ensures
            config_settings(l.cli_overrides) == (ConfigSettings {
                check_mode: check,
                ..config_settings(self.cli_overrides)
            }),
            l.cli_overrides.wf() == self.cli_overrides.wf(),
            l.config_files == self.config_files,
            l.env_prefix == self.env_prefix,
            l.load_standard_locations == self.load_standard_locations,
    {
        let mut l = self;
        l.cli_overrides.check_mode = check;
        l
    }

    /// Overrides whether colors are used.
    pub fn with_colors(self, use_colors: bool) -> (l: Self)
        ensures
            config_settings(l.cli_overrides) == (ConfigSettings {
                use_colors,
                ..config_settings(self.cli_overrides)
            }),
            l.cli_overrides.wf() == self.cli_overrides.wf(),
            l.config_files == self.config_files,
            l.env_prefix == self.env_prefix,
            l.load_standard_locations == self.load_standard_locations,
    {
        let mut l = self;
        l.cli_overrides.use_colors = use_colors;
        l
    }

    /// The settings from all sources: the defaults, then the configurations
    /// read from files (in the order read), then those of the environment
    /// (when read), then the command-line overrides, each merged over what
    /// came before.
    pub fn load_from(self, files: Vec<CallbackConfig>, env: Option<CallbackConfig>) -> (c: CallbackConfig)
        requires
            self.cli_overrides.wf(),
            forall|i: int| 0 <= i < files@.len() ==> (#[trigger] files@[i]).wf(),
            env matches Some(e) ==> e.wf(),
        ensures
            c.wf(),
            config_settings(c) == crate::config::merge_config(
                match env {
                    Some(e) => crate::config::merge_config(
                        merged_all(default_config_settings(), settings_seq(files@)),
                        config_settings(e),
                    ),
                    None => merged_all(default_config_settings(), settings_seq(files@)),
                },
                config_settings(self.cli_overrides),
            ),
    {
        let ghost fs = settings_seq(files@);
        let mut c = CallbackConfig::default();
        let mut rest = files;
        let mut taken: usize = 0;
        let n = rest.len();
        let ghost all = files@;
        proof {
            assert(fs.take(0) =~= Seq::<ConfigSettings>::empty());
            assert(rest@ =~= all.skip(0));
        }
        while rest.len() > 0
            invariant
                c.wf(),
                n == all.len(),
                taken <= all.len(),
                rest@ == all.skip(taken as int),
                fs == settings_seq(all),
                forall|i: int| 0 <= i < all.len() ==> (#[trigger] all[i]).wf(),
                config_settings(c) == merged_all(default_config_settings(), fs.take(taken as int)),
            decreases rest.len(),
        {
            let next = rest.remove(0);
            proof {
                assert(next == all[taken as int]);
                assert(rest@ =~= all.skip(taken + 1));
                assert(fs.take(taken + 1).drop_last() =~= fs.take(taken as int));
                assert(fs.take(taken + 1).last() == config_settings(next));
            }
            c.merge(next);
            taken = taken + 1;
        }
        proof {
            assert(taken == all.len());
            assert(fs.take(taken as int) =~= fs);
        }
        match env {
            Some(e) => c.merge(e),
            None => {},
        }
        c.merge(self.cli_overrides);
        c
    }
}

} // verus!
