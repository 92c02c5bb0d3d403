//! The context plugin: shows the variables, facts and registered results a
//! task runs with, masking sensitive values, and compact result lines.
use vstd::prelude::*;
use crate::config::json_map;
use crate::plugins::actionable::{lemma_sorted_keys, opt_chars, sorted_keys};
use crate::style::{
    append_lines, blank, bold_style, color_style, line_view, lines_view, plain_style, push_line,
    push_owned, push_span, single, text_of, Color, Span, SpanView, Style,
};
use crate::table::{views, HostTable};
use crate::text::{
    sat_sub, at_boundary, byte_len, byte_prefix, byte_prefix_of, chars_of, contains_seq, is_boundary, dec, join_seq, lowercase, push_dec, push_str, repeat_char,
    repeat_string, starts_with_seq, str_contains, str_eq, str_starts_with, str_views,
    string_of_chars, to_lowercase, utf8_len, join_strs, join_strings, strip_prefix_or_keep,
    strip_prefix_seq,
};
use crate::types::{
    classify, copy_json, inc, jview, jview_entries, jview_items, lemma_jview_entries_index,
    lemma_jview_entries_len, lemma_jview_items_index, lemma_jview_items_len, outcome_of, wrap_inc,
    ExecutionResult, JsonNumber, JsonValue, JsonView, TaskOutcome,
};

verus! {

// ---------------------------------------------------------------------------
// Configuration
// ---------------------------------------------------------------------------

/// How much context is shown.
#[derive(Clone, Copy, Debug, PartialEq, Eq, Structural)]
pub enum ContextVerbosity {
    /// Only task results.
    Minimal,
    /// Task results and relevant variables.
    Normal,
    /// Variables, facts and registered results.
    Verbose,
    /// Everything, internal variables included.
    Debug,
}

/// The rank of a verbosity (Minimal lowest).
pub open spec fn rank(v: ContextVerbosity) -> nat {
    match v {
        ContextVerbosity::Minimal => 0,
        ContextVerbosity::Normal => 1,
        ContextVerbosity::Verbose => 2,
        ContextVerbosity::Debug => 3,
    }
}

impl ContextVerbosity {
    /// The rank of the level (0 to 3).
    pub fn level(&self) -> (r: u8)
        ensures
            r == rank(*self),
    {
        match self {
            ContextVerbosity::Minimal => 0,
            ContextVerbosity::Normal => 1,
            ContextVerbosity::Verbose => 2,
            ContextVerbosity::Debug => 3,
        }
    }
}

impl Default for ContextVerbosity {
    fn default() -> (v: Self)
        ensures
            v == ContextVerbosity::Normal,
    {
        ContextVerbosity::Normal
    }
}

/// Configuration for the context callback.
#[derive(Debug)]
pub struct ContextCallbackConfig {
    /// How much context is shown.
    pub verbosity: ContextVerbosity,
    /// Show gathered facts.
    pub show_facts: bool,
    /// Show registered results.
    pub show_registered: bool,
    /// Mask sensitive values.
    pub mask_sensitive: bool,
    /// More patterns that mark a name as sensitive.
    pub additional_sensitive_patterns: Vec<String>,
    /// How deep nested values are shown.
    pub max_depth: usize,
    /// How many bytes of a string are shown.
    pub max_string_length: usize,
    /// Show empty values.
    pub show_empty: bool,
}

impl Default for ContextCallbackConfig {
    fn default() -> (c: Self)
        ensures
            c.verbosity == ContextVerbosity::Normal,
            c.show_facts,
            c.show_registered,
            c.mask_sensitive,
            c.additional_sensitive_patterns@.len() == 0,
            c.max_depth == 4,
            c.max_string_length == 200,
            !c.show_empty,
    {
        ContextCallbackConfig {
            verbosity: ContextVerbosity::Normal,
            show_facts: true,
            show_registered: true,
            mask_sensitive: true,
            additional_sensitive_patterns: Vec::new(),
            max_depth: 4,
            max_string_length: 200,
            show_empty: false,
        }
    }
}

/// Builds a context callback.
#[derive(Debug)]
pub struct ContextCallbackBuilder {
    /// The configuration being built.
    pub config: ContextCallbackConfig,
}

impl ContextCallbackBuilder {
    /// A builder with the default configuration.
    pub fn new() -> (b: Self)
        ensures
            b.config.verbosity == ContextVerbosity::Normal,
            b.config.show_facts,
            b.config.show_registered,
            b.config.mask_sensitive,
            b.config.additional_sensitive_patterns@.len() == 0,
            b.config.max_depth == 4,
            b.config.max_string_length == 200,
            !b.config.show_empty,
    {
        ContextCallbackBuilder { config: ContextCallbackConfig::default() }
    }

    /// Sets the verbosity.
    pub fn verbosity(self, verbosity: ContextVerbosity) -> (b: Self)
        ensures
            b.config == (ContextCallbackConfig { verbosity, ..self.config }),
    {
        ContextCallbackBuilder { config: ContextCallbackConfig { verbosity, ..self.config } }
    }

    /// Shows facts.
    pub fn show_facts(self, show: bool) -> (b: Self)
        ensures
            b.config == (ContextCallbackConfig { show_facts: show, ..self.config }),
    {
        ContextCallbackBuilder { config: ContextCallbackConfig { show_facts: show, ..self.config } }
    }

    /// Shows registered results.
    pub fn show_registered(self, show: bool) -> (b: Self)
        ensures
            b.config == (ContextCallbackConfig { show_registered: show, ..self.config }),
    {
        ContextCallbackBuilder { config: ContextCallbackConfig { show_registered: show, ..self.config } }
    }

    /// Masks sensitive values.
    pub fn mask_sensitive(self, mask: bool) -> (b: Self)
        ensures
            b.config == (ContextCallbackConfig { mask_sensitive: mask, ..self.config }),
    {
        ContextCallbackBuilder { config: ContextCallbackConfig { mask_sensitive: mask, ..self.config } }
    }

    /// Adds a pattern that marks a name as sensitive.
    pub fn sensitive_pattern(self, pattern: &str) -> (b: Self)
        ensures
            b.config.additional_sensitive_patterns@ == self.config.additional_sensitive_patterns@.push(
                b.config.additional_sensitive_patterns@.last(),
            ),
            b.config.additional_sensitive_patterns@.last()@ == pattern@,
            b.config.verbosity == self.config.verbosity,
            b.config.show_facts == self.config.show_facts,
            b.config.show_registered == self.config.show_registered,
            b.config.mask_sensitive == self.config.mask_sensitive,
            b.config.max_depth == self.config.max_depth,
            b.config.max_string_length == self.config.max_string_length,
            b.config.show_empty == self.config.show_empty,
    {
        let mut b = self;
        b.config.additional_sensitive_patterns.push(pattern.to_owned());
        b
    }

    /// Sets how deep nested values are shown.
    pub fn max_depth(self, depth: usize) -> (b: Self)
        ensures
            b.config == (ContextCallbackConfig { max_depth: depth, ..self.config }),
    {
        ContextCallbackBuilder { config: ContextCallbackConfig { max_depth: depth, ..self.config } }
    }

    /// Sets how many bytes of a string are shown.
    pub fn max_string_length(self, length: usize) -> (b: Self)
        ensures
            b.config == (ContextCallbackConfig { max_string_length: length, ..self.config }),
    {
        ContextCallbackBuilder { config: ContextCallbackConfig { max_string_length: length, ..self.config } }
    }

    /// Shows empty values.
    pub fn show_empty(self, show: bool) -> (b: Self)
        ensures
            b.config == (ContextCallbackConfig { show_empty: show, ..self.config }),
    {
        ContextCallbackBuilder { config: ContextCallbackConfig { show_empty: show, ..self.config } }
    }

    /// The callback.
    pub fn build(self) -> (c: ContextCallback)
        ensures
            c.wf(),
            c.spec_config() == self.config,
    {
        ContextCallback::with_config(self.config)
    }
}

// ---------------------------------------------------------------------------
// Sensitive names
// ---------------------------------------------------------------------------

/// The built-in patterns that mark a name as sensitive.
pub open spec fn base_patterns() -> Seq<Seq<char>> {
    seq![
        "password"@, "passwd"@, "secret"@, "token"@, "api_key"@, "apikey"@, "auth_key"@, "authkey"@,
        "private_key"@, "privatekey"@, "access_key"@, "accesskey"@, "secret_key"@, "secretkey"@,
        "credential"@, "ssh_key"@, "sshkey"@, "cert"@, "certificate"@, "bearer"@, "authorization"@,
        "auth_token"@, "authtoken"@, "refresh_token"@, "access_token"@, "client_secret"@,
        "encryption_key"@, "decryption_key"@, "vault_password"@, "become_password"@, "become_pass"@,
        "ansible_password"@, "ansible_become_password"@, "ansible_ssh_pass"@, "mysql_password"@,
        "postgres_password"@, "db_password"@, "database_password"@, "redis_password"@, "aws_secret"@,
        "azure_secret"@, "gcp_secret"@,
    ]
}

/// Every pattern in use, lowercase: the built-in ones (written in lowercase),
/// then the configured ones lowercased.
pub open spec fn pattern_set(extra: Seq<Seq<char>>) -> Seq<Seq<char>> {
    base_patterns() + Seq::new(extra.len(), |i: int| lowercase(extra[i]))
}

/// Whether `name` is sensitive: masking is on and its lowercase form
/// contains a pattern.
pub open spec fn sensitive(mask: bool, patterns: Seq<Seq<char>>, name: Seq<char>) -> bool {
    mask && exists|i: int| 0 <= i < patterns.len() && contains_seq(lowercase(name), #[trigger] patterns[i])
}

/// With masking on, a name whose lowercase form contains one of the
/// built-in patterns (`password`, `passwd`, `secret`, `token`, `api_key`,
/// ... `gcp_secret`) is sensitive, whatever other patterns are configured.
pub proof fn lemma_builtin_pattern_sensitive(extra: Seq<Seq<char>>, name: Seq<char>, p: Seq<char>)
    requires
        p == "password"@ || p == "passwd"@ || p == "secret"@ || p == "token"@ || p == "api_key"@ ||
            p == "apikey"@ || p == "auth_key"@ || p == "authkey"@ || p == "private_key"@ ||
            p == "privatekey"@ || p == "access_key"@ || p == "accesskey"@ || p == "secret_key"@ ||
            p == "secretkey"@ || p == "credential"@ || p == "ssh_key"@ || p == "sshkey"@ || p == "cert"@ ||
            p == "certificate"@ || p == "bearer"@ || p == "authorization"@ || p == "auth_token"@ ||
            p == "authtoken"@ || p == "refresh_token"@ || p == "access_token"@ || p == "client_secret"@ ||
            p == "encryption_key"@ || p == "decryption_key"@ || p == "vault_password"@ ||
            p == "become_password"@ || p == "become_pass"@ || p == "ansible_password"@ ||
            p == "ansible_become_password"@ || p == "ansible_ssh_pass"@ || p == "mysql_password"@ ||
            p == "postgres_password"@ || p == "db_password"@ || p == "database_password"@ ||
            p == "redis_password"@ || p == "aws_secret"@ || p == "azure_secret"@ || p == "gcp_secret"@,
        contains_seq(lowercase(name), p),
    ensures
        sensitive(true, pattern_set(extra), name),
{
    let ps = pattern_set(extra);
    assert(ps.len() >= 42);
    if p == "password"@ {
        assert(ps[0] == p);
    } else if p == "passwd"@ {
        assert(ps[1] == p);
    } else if p == "secret"@ {
        assert(ps[2] == p);
    } else if p == "token"@ {
        assert(ps[3] == p);
    } else if p == "api_key"@ {
        assert(ps[4] == p);
    } else if p == "apikey"@ {
        assert(ps[5] == p);
    } else if p == "auth_key"@ {
        assert(ps[6] == p);
    } else if p == "authkey"@ {
        assert(ps[7] == p);
    } else if p == "private_key"@ {
        assert(ps[8] == p);
    } else if p == "privatekey"@ {
        assert(ps[9] == p);
    } else if p == "access_key"@ {
        assert(ps[10] == p);
    } else if p == "accesskey"@ {
        assert(ps[11] == p);
    } else if p == "secret_key"@ {
        assert(ps[12] == p);
    } else if p == "secretkey"@ {
        assert(ps[13] == p);
    } else if p == "credential"@ {
        assert(ps[14] == p);
    } else if p == "ssh_key"@ {
        assert(ps[15] == p);
    } else if p == "sshkey"@ {
        assert(ps[16] == p);
    } else if p == "cert"@ {
        assert(ps[17] == p);
    } else if p == "certificate"@ {
        assert(ps[18] == p);
    } else if p == "bearer"@ {
        assert(ps[19] == p);
    } else if p == "authorization"@ {
        assert(ps[20] == p);
    } else if p == "auth_token"@ {
        assert(ps[21] == p);
    } else if p == "authtoken"@ {
        assert(ps[22] == p);
    } else if p == "refresh_token"@ {
        assert(ps[23] == p);
    } else if p == "access_token"@ {
        assert(ps[24] == p);
    } else if p == "client_secret"@ {
        assert(ps[25] == p);
    } else if p == "encryption_key"@ {
        assert(ps[26] == p);
    } else if p == "decryption_key"@ {
        assert(ps[27] == p);
    } else if p == "vault_password"@ {
        assert(ps[28] == p);
    } else if p == "become_password"@ {
        assert(ps[29] == p);
    } else if p == "become_pass"@ {
        assert(ps[30] == p);
    } else if p == "ansible_password"@ {
        assert(ps[31] == p);
    } else if p == "ansible_become_password"@ {
        assert(ps[32] == p);
    } else if p == "ansible_ssh_pass"@ {
        assert(ps[33] == p);
    } else if p == "mysql_password"@ {
        assert(ps[34] == p);
    } else if p == "postgres_password"@ {
        assert(ps[35] == p);
    } else if p == "db_password"@ {
        assert(ps[36] == p);
    } else if p == "database_password"@ {
        assert(ps[37] == p);
    } else if p == "redis_password"@ {
        assert(ps[38] == p);
    } else if p == "aws_secret"@ {
        assert(ps[39] == p);
    } else if p == "azure_secret"@ {
        assert(ps[40] == p);
    } else if p == "gcp_secret"@ {
        assert(ps[41] == p);
    }
}

fn base_pattern_list() -> (r: Vec<&'static str>)
    ensures
        str_views(r@) == base_patterns(),
{
    let mut r = Vec::new();
    r.push("password");
    r.push("passwd");
    r.push("secret");
    r.push("token");
    r.push("api_key");
    r.push("apikey");
    r.push("auth_key");
    r.push("authkey");
    r.push("private_key");
    r.push("privatekey");
    r.push("access_key");
    r.push("accesskey");
    r.push("secret_key");
    r.push("secretkey");
    r.push("credential");
    r.push("ssh_key");
    r.push("sshkey");
    r.push("cert");
    r.push("certificate");
    r.push("bearer");
    r.push("authorization");
    r.push("auth_token");
    r.push("authtoken");
    r.push("refresh_token");
    r.push("access_token");
    r.push("client_secret");
    r.push("encryption_key");
    r.push("decryption_key");
    r.push("vault_password");
    r.push("become_password");
    r.push("become_pass");
    r.push("ansible_password");
    r.push("ansible_become_password");
    r.push("ansible_ssh_pass");
    r.push("mysql_password");
    r.push("postgres_password");
    r.push("db_password");
    r.push("database_password");
    r.push("redis_password");
    r.push("aws_secret");
    r.push("azure_secret");
    r.push("gcp_secret");
    proof {
        assert(str_views(r@) =~= base_patterns());
    }
    r
}

fn compile_patterns(extra: &Vec<String>) -> (r: Vec<String>)
    ensures
        views(r@) == pattern_set(views(extra@)),
{
    let base = base_pattern_list();
    let ghost ex = views(extra@);
    let mut r: Vec<String> = Vec::new();
    let mut i: usize = 0;
    proof {
        assert(views(r@) =~= base_patterns().subrange(0, 0));
    }
    while i < base.len()
        invariant
            i <= base.len(),
            str_views(base@) == base_patterns(),
            views(r@) == base_patterns().subrange(0, i as int),
        decreases base.len() - i,
    {
        let l = base[i].to_owned();
        let ghost before = views(r@);
        let ghost lv = l@;
        r.push(l);
        proof {
            assert(views(r@) =~= before.push(lv));
            assert(str_views(base@)[i as int] == base@[i as int]@);
            assert(views(r@) =~= base_patterns().subrange(0, i + 1));
        }
        i = i + 1;
    }
    let mut k: usize = 0;
    proof {
        assert(views(r@) =~= base_patterns() + Seq::new(0, |j: int| lowercase(ex[j])));
    }
    while k < extra.len()
        invariant
            k <= extra.len(),
            ex == views(extra@),
            views(r@) == base_patterns() + Seq::new(k as nat, |j: int| lowercase(ex[j])),
        decreases extra.len() - k,
    {
        let l = to_lowercase(extra[k].as_str());
        let ghost before = views(r@);
        let ghost lv = l@;
        r.push(l);
        proof {
            assert(views(r@) =~= before.push(lv));
            assert(ex[k as int] == extra@[k as int]@);
            assert(views(r@) =~= base_patterns() + Seq::new((k + 1) as nat, |j: int| lowercase(ex[j])));
        }
        k = k + 1;
    }
    proof {
        assert(views(r@) =~= pattern_set(views(extra@)));
    }
    r
}

// ---------------------------------------------------------------------------
// Formatting values
// ---------------------------------------------------------------------------

/// How values are shown: the depth limit, the string limit (in bytes), and
/// the masking settings.
pub ghost struct ValueFormat {
    pub max_depth: nat,
    pub max_len: nat,
    pub mask: bool,
    pub patterns: Seq<Seq<char>>,
}

/// The text `serde_json` prints for a number.
pub open spec fn number_text(n: JsonNumber) -> Seq<char> {
    match n {
        JsonNumber::PosInt(u) => dec(u as nat),
        JsonNumber::NegInt(i) => if i < 0 { "-"@ + dec((-(i as int)) as nat) } else { dec(i as nat) },
        JsonNumber::Float(t) => t@,
    }
}

/// A string as shown: quoted, or cut to the byte limit with its length.
pub open spec fn string_text(f: ValueFormat, s: Seq<char>) -> Seq<char> {
    if (utf8_len(s) as usize) > f.max_len {
        "\""@ + byte_prefix(s, f.max_len) + "...\" ("@ + dec((utf8_len(s) as usize) as nat) + " chars)"@
    } else {
        "\""@ + s + "\""@
    }
}

/// A value as shown at `depth`.
pub open spec fn value_text(f: ValueFormat, v: JsonView, depth: nat) -> Seq<char>
    decreases v, 0int,
{
    if depth > f.max_depth {
        "..."@
    } else {
        match v {
            JsonView::Null => "null"@,
            JsonView::Bool(b) => if b { "true"@ } else { "false"@ },
            JsonView::Number(n) => number_text(n),
            JsonView::Str(s) => string_text(f, s),
            JsonView::Array(items) => if items.len() == 0 {
                "[]"@
            } else if items.len() > 5 && depth > 0 {
                "["@ + dec(items.len()) + " items]"@
            } else {
                let parts = join_seq(item_texts(f, items, if items.len() < 10 { items.len() as int } else { 10 }, depth + 1), ", "@);
                if items.len() > 10 {
                    "["@ + parts + ", ... +"@ + dec((items.len() - 10) as nat) + " more]"@
                } else {
                    "["@ + parts + "]"@
                }
            },
            JsonView::Object(es) => if es.len() == 0 {
                "{}"@
            } else if es.len() > 5 && depth > 0 {
                "{"@ + dec(es.len()) + " keys}"@
            } else {
                let parts = join_seq(entry_texts(f, es, if es.len() < 10 { es.len() as int } else { 10 }, depth + 1), ", "@);
                if es.len() > 10 {
                    "{"@ + parts + "} +"@ + dec((es.len() - 10) as nat) + " more"@
                } else {
                    "{"@ + parts + "}"@
                }
            },
        }
    }
}

/// How values are shown: beyond the depth limit as `...`; a string in
/// quotes, whole when it fits the length limit, else its first bytes up to
/// the limit, `...` and its length; `null` and booleans as written; an
/// empty collection as `[]` or `{}`; and a nested collection of more than
/// five entries only by its count.
pub proof fn lemma_value_text_shapes(f: ValueFormat, v: JsonView, depth: nat)
    ensures
        depth > f.max_depth ==> value_text(f, v, depth) == "..."@,
        depth <= f.max_depth ==> match v {
            JsonView::Null => value_text(f, v, depth) == "null"@,
            JsonView::Bool(b) => value_text(f, v, depth) == if b { "true"@ } else { "false"@ },
            JsonView::Str(t) => value_text(f, v, depth) == if (utf8_len(t) as usize) <= f.max_len {
                "\""@ + t + "\""@
            } else {
                "\""@ + byte_prefix(t, f.max_len) + "...\" ("@ + dec((utf8_len(t) as usize) as nat) + " chars)"@
            },
            JsonView::Array(items) => (items.len() == 0 ==> value_text(f, v, depth) == "[]"@) && (items.len() > 5
                && depth > 0 ==> value_text(f, v, depth) == "["@ + dec(items.len()) + " items]"@),
            JsonView::Object(es) => (es.len() == 0 ==> value_text(f, v, depth) == "{}"@) && (es.len() > 5 && depth
                > 0 ==> value_text(f, v, depth) == "{"@ + dec(es.len()) + " keys}"@),
            _ => true,
        },
{
}

/// Inside a shown object, an entry whose name is sensitive shows
/// `name: ********` in place of its value; any other shows `name: value`.
pub proof fn lemma_entry_texts_mask(f: ValueFormat, es: Seq<(Seq<char>, JsonView)>, k: int, depth: nat, i: int)
    requires
        0 <= i < k <= es.len(),
    ensures
        entry_texts(f, es, k, depth).len() == k,
        sensitive(f.mask, f.patterns, es[i].0) ==> entry_texts(f, es, k, depth)[i] == es[i].0 + ": ********"@,
        !sensitive(f.mask, f.patterns, es[i].0) ==> entry_texts(f, es, k, depth)[i] == es[i].0 + ": "@
            + value_text(f, es[i].1, depth),
    decreases k,
{
    reveal_strlit(": ********");
    reveal_strlit(": ");
    reveal_strlit("********");
    assert(": ********"@ =~= ": "@ + "********"@);
    if i < k - 1 {
        lemma_entry_texts_mask(f, es, k - 1, depth, i);
    } else {
        lemma_entry_texts_len(f, es, k - 1, depth);
    }
}

/// There are as many entry texts as entries asked for.
proof fn lemma_entry_texts_len(f: ValueFormat, es: Seq<(Seq<char>, JsonView)>, k: int, depth: nat)
    requires
        0 <= k <= es.len(),
    ensures
        entry_texts(f, es, k, depth).len() == k,
    decreases k,
{
    if k > 0 {
        lemma_entry_texts_len(f, es, k - 1, depth);
    }
}

/// The first `k` items, each as shown at `depth`.
pub open spec fn item_texts(f: ValueFormat, s: Seq<JsonView>, k: int, depth: nat) -> Seq<Seq<char>>
    decreases s, k,
{
    if k <= 0 || k > s.len() {
        Seq::empty()
    } else {
        item_texts(f, s, k - 1, depth).push(value_text(f, s[k - 1], depth))
    }
}

/// The first `k` entries, each as `key: value` with sensitive values
/// masked.
pub open spec fn entry_texts(f: ValueFormat, s: Seq<(Seq<char>, JsonView)>, k: int, depth: nat) -> Seq<Seq<char>>
    decreases s, k,
{
    if k <= 0 || k > s.len() {
        Seq::empty()
    } else {
        entry_texts(f, s, k - 1, depth).push(
            s[k - 1].0 + ": "@ + if sensitive(f.mask, f.patterns, s[k - 1].0) {
                "********"@
            } else {
                value_text(f, s[k - 1].1, depth)
            },
        )
    }
}

/// Every string that showing `v` at `depth` cuts has its cut between two
/// characters (where it does not, showing the value fails).
pub open spec fn cuts_ok(f: ValueFormat, v: JsonView, depth: nat) -> bool
    decreases v, 0int,
{
    if depth > f.max_depth {
        true
    } else {
        match v {
            JsonView::Str(s) => (utf8_len(s) as usize) > f.max_len ==> is_boundary(s, f.max_len),
            JsonView::Array(items) => items.len() == 0 || (items.len() > 5 && depth > 0) || items_ok(
                f,
                items,
                if items.len() < 10 { items.len() as int } else { 10 },
                depth + 1,
            ),
            JsonView::Object(es) => es.len() == 0 || (es.len() > 5 && depth > 0) || entries_ok(
                f,
                es,
                if es.len() < 10 { es.len() as int } else { 10 },
                depth + 1,
            ),
            _ => true,
        }
    }
}

/// `cuts_ok` for the first `k` items.
pub open spec fn items_ok(f: ValueFormat, s: Seq<JsonView>, k: int, depth: nat) -> bool
    decreases s, k,
{
    if k <= 0 || k > s.len() {
        true
    } else {
        items_ok(f, s, k - 1, depth) && cuts_ok(f, s[k - 1], depth)
    }
}

/// `cuts_ok` for the first `k` entries (masked values are not shown).
pub open spec fn entries_ok(f: ValueFormat, s: Seq<(Seq<char>, JsonView)>, k: int, depth: nat) -> bool
    decreases s, k,
{
    if k <= 0 || k > s.len() {
        true
    } else {
        entries_ok(f, s, k - 1, depth) && (sensitive(f.mask, f.patterns, s[k - 1].0) || cuts_ok(
            f,
            s[k - 1].1,
            depth,
        ))
    }
}

/// The text `serde_json` prints for a number.
fn number_string(n: &JsonNumber) -> (s: String)
    ensures
        s@ == number_text(*n),
{
    match n {
        JsonNumber::PosInt(u) => crate::text::dec_string(*u),
        JsonNumber::NegInt(i) => {
            let mut s = String::new();
            if *i < 0 {
                push_str(&mut s, "-");
                let m: u64 = if *i == i64::MIN { 9223372036854775808u64 } else { (-*i) as u64 };
                push_dec(&mut s, m);
            } else {
                push_dec(&mut s, *i as u64);
            }
            s
        },
        JsonNumber::Float(t) => t.clone(),
    }
}

// ---------------------------------------------------------------------------
// Per-host state
// ---------------------------------------------------------------------------

/// Task counts for one host.
#[derive(Clone, Copy, Debug, PartialEq, Eq, Structural)]
pub struct HostStats {
    pub ok: u32,
    pub changed: u32,
    pub failed: u32,
    pub skipped: u32,
}

/// A host with nothing counted.
pub open spec fn zero_stats() -> HostStats {
    HostStats { ok: 0, changed: 0, failed: 0, skipped: 0 }
}

/// The counts of `host`, zero if it has none yet.
pub open spec fn stats_of(m: Map<Seq<char>, HostStats>, host: Seq<char>) -> HostStats {
    if m.contains_key(host) {
        m[host]
    } else {
        zero_stats()
    }
}

/// The counts of a host after one more task with the given outcome.
pub open spec fn count_outcome(s: HostStats, o: TaskOutcome) -> HostStats {
    match o {
        TaskOutcome::Skipped => HostStats { skipped: wrap_inc(s.skipped), ..s },
        TaskOutcome::Failed => HostStats { failed: wrap_inc(s.failed), ..s },
        TaskOutcome::Changed => HostStats { changed: wrap_inc(s.changed), ..s },
        TaskOutcome::Unchanged => HostStats { ok: wrap_inc(s.ok), ..s },
    }
}

/// A finished task counts once, under its own kind: a skipped task as
/// skipped, else a task that did not succeed as failed, else a changed one
/// as changed, else as ok; the other counts stay as they were.
pub proof fn lemma_count_result(s: HostStats, r: crate::types::ModuleResult)
    requires
        s.ok < u32::MAX,
        s.changed < u32::MAX,
        s.failed < u32::MAX,
        s.skipped < u32::MAX,
    ensures
        count_outcome(s, crate::types::outcome_of(r)).failed == s.failed + if !r.skipped && !r.success { 1int } else { 0int },
        count_outcome(s, crate::types::outcome_of(r)).skipped == s.skipped + if r.skipped { 1int } else { 0int },
        count_outcome(s, crate::types::outcome_of(r)).changed == s.changed + if !r.skipped && r.success && r.changed { 1int } else { 0int },
        count_outcome(s, crate::types::outcome_of(r)).ok == s.ok + if !r.skipped && r.success && !r.changed { 1int } else { 0int },

{
}

/// What a host's tasks see: variables, gathered facts and registered
/// results, each in insertion order.
#[derive(Debug)]
pub struct TaskContext {
    pub variables: HostTable<JsonValue>,
    pub facts: HostTable<JsonValue>,
    pub registered: HostTable<JsonValue>,
}

impl TaskContext {
    /// The tables are well formed.
    pub open spec fn wf(&self) -> bool {
        self.variables.wf() && self.facts.wf() && self.registered.wf()
    }

    /// An empty context.
    pub fn new() -> (c: Self)
        ensures
            c.wf(),
            c.variables@ == Map::<Seq<char>, JsonValue>::empty(),
            c.facts@ == Map::<Seq<char>, JsonValue>::empty(),
            c.registered@ == Map::<Seq<char>, JsonValue>::empty(),
    {
        TaskContext { variables: HostTable::new(), facts: HostTable::new(), registered: HostTable::new() }
    }
}

// ---------------------------------------------------------------------------
// The callback
// ---------------------------------------------------------------------------

/// Callback that shows the context tasks run with.
#[derive(Debug)]
pub struct ContextCallback {
    config: ContextCallbackConfig,
    patterns: Vec<String>,
    host_stats: HostTable<HostStats>,
    host_contexts: HostTable<TaskContext>,
    started: bool,
    playbook_name: Option<String>,
    current_task: Option<String>,
}

impl ContextCallback {
    /// The tables are well formed and the patterns are those of the
    /// configuration.
    pub closed spec fn wf(&self) -> bool {
        &&& self.host_stats.wf()
        &&& self.host_contexts.wf()
        &&& forall|k: Seq<char>| #[trigger] self.host_contexts@.contains_key(k) ==> self.host_contexts@[k].wf()
        &&& views(self.patterns@) == pattern_set(views(self.config.additional_sensitive_patterns@))
    }

    /// The configuration.
    pub closed spec fn spec_config(&self) -> ContextCallbackConfig {
        self.config
    }

    /// How values are shown.
    pub open spec fn format(&self) -> ValueFormat {
        ValueFormat {
            max_depth: self.spec_config().max_depth as nat,
            max_len: self.spec_config().max_string_length as nat,
            mask: self.spec_config().mask_sensitive,
            patterns: pattern_set(views(self.spec_config().additional_sensitive_patterns@)),
        }
    }

    /// The counts per host.
    pub closed spec fn stats(&self) -> Map<Seq<char>, HostStats> {
        self.host_stats@
    }

    /// The context per host.
    pub closed spec fn contexts(&self) -> Map<Seq<char>, TaskContext> {
        self.host_contexts@
    }

    /// Whether a playbook started.
    pub closed spec fn spec_started(&self) -> bool {
        self.started
    }

    /// The configuration.
    pub fn config(&self) -> (c: &ContextCallbackConfig)
        ensures
            *c == self.spec_config(),
    {
        &self.config
    }

    /// A context callback with the default configuration.
    pub fn new() -> (c: Self)
        ensures
            c.wf(),
            c.spec_config().verbosity == ContextVerbosity::Normal,
            c.spec_config().mask_sensitive,
            c.spec_config().max_depth == 4,
            c.spec_config().max_string_length == 200,
            c.stats() == Map::<Seq<char>, HostStats>::empty(),
    {
        Self::with_config(ContextCallbackConfig::default())
    }

    /// A context callback with the given configuration.
    pub fn with_config(config: ContextCallbackConfig) -> (c: Self)
        ensures
            c.wf(),
            c.spec_config() == config,
            c.stats() == Map::<Seq<char>, HostStats>::empty(),
            c.contexts() == Map::<Seq<char>, TaskContext>::empty(),
            !c.spec_started(),
    {
        let patterns = compile_patterns(&config.additional_sensitive_patterns);
        ContextCallback {
            config,
            patterns,
            host_stats: HostTable::new(),
            host_contexts: HostTable::new(),
            started: false,
            playbook_name: None,
            current_task: None,
        }
    }

    /// Task results only.
    pub fn minimal() -> (c: Self)
        ensures
            c.wf(),
            c.spec_config().verbosity == ContextVerbosity::Minimal,
            !c.spec_config().show_facts,
            !c.spec_config().show_registered,
            c.spec_config().mask_sensitive,
            c.spec_config().max_depth == 4,
            c.spec_config().max_string_length == 200,
            !c.spec_config().show_empty,
    {
        let mut config = ContextCallbackConfig::default();
        config.verbosity = ContextVerbosity::Minimal;
        config.show_facts = false;
        config.show_registered = false;
        Self::with_config(config)
    }

    /// Variables, facts and registered results, empty values included.
    pub fn verbose() -> (c: Self)
        ensures
            c.wf(),
            c.spec_config().verbosity == ContextVerbosity::Verbose,
            c.spec_config().show_facts,
            c.spec_config().show_registered,
            c.spec_config().show_empty,
            c.spec_config().mask_sensitive,
            c.spec_config().max_depth == 4,
            c.spec_config().max_string_length == 200,
    {
        let mut config = ContextCallbackConfig::default();
        config.verbosity = ContextVerbosity::Verbose;
        config.show_facts = true;
        config.show_registered = true;
        config.show_empty = true;
        Self::with_config(config)
    }

    /// Everything, deeper and longer.
    pub fn debug() -> (c: Self)
        ensures
            c.wf(),
            c.spec_config().verbosity == ContextVerbosity::Debug,
            c.spec_config().show_facts,
            c.spec_config().show_registered,
            c.spec_config().show_empty,
            c.spec_config().max_depth == 8,
            c.spec_config().max_string_length == 500,
            c.spec_config().mask_sensitive,
    {
        let mut config = ContextCallbackConfig::default();
        config.verbosity = ContextVerbosity::Debug;
        config.show_facts = true;
        config.show_registered = true;
        config.show_empty = true;
        config.max_depth = 8;
        config.max_string_length = 500;
        Self::with_config(config)
    }

    /// The configuration's verbosity.
    pub fn verbosity(&self) -> (v: ContextVerbosity)
        ensures
            v == self.spec_config().verbosity,
    {
        self.config.verbosity
    }

    /// Whether `name` is sensitive: masking is on and its lowercase form
    /// contains one of the patterns.
    pub fn is_sensitive(&self, name: &str) -> (b: bool)
        requires
            self.wf(),
        ensures
            b == sensitive(self.format().mask, self.format().patterns, name@),
    {
        if !self.config.mask_sensitive {
            return false;
        }
        let lower = to_lowercase(name);
        let mut i: usize = 0;
        while i < self.patterns.len()
            invariant
                self.wf(),
                self.config.mask_sensitive,
                i <= self.patterns@.len(),
                lower@ == lowercase(name@),
                forall|j: int| 0 <= j < i ==> !contains_seq(lower@, #[trigger] self.format().patterns[j]),
            decreases self.patterns.len() - i,
        {
            proof {
                assert(views(self.patterns@)[i as int] == self.patterns@[i as int]@);
            }
            if str_contains(lower.as_str(), self.patterns[i].as_str()) {
                proof {
                    assert(views(self.patterns@).len() == self.patterns@.len());
                    assert(0 <= i < self.format().patterns.len());
                    assert(self.format().mask);
                    assert(contains_seq(lowercase(name@), self.format().patterns[i as int]));
                }
                return true;
            }
            i = i + 1;
        }
        false
    }

    /// A value as shown for `name`: the mask when the name is sensitive.
    pub fn mask_value(&self, name: &str, value: &JsonValue) -> (s: String)
        requires
            self.wf(),
            self.spec_config().max_depth < usize::MAX,
            !sensitive(self.format().mask, self.format().patterns, name@) ==> cuts_ok(self.format(), jview(*value), 0),
        ensures
            s@ == if sensitive(self.format().mask, self.format().patterns, name@) {
                "********"@
            } else {
                value_text(self.format(), jview(*value), 0)
            },
    {
        if self.is_sensitive(name) {
            "********".to_owned()
        } else {
            self.format_value(value, 0)
        }
    }

    /// A value as shown at `depth`: nested values beyond the depth limit as
    /// `...`, long strings cut, long arrays and objects summarized, and
    /// sensitive object entries masked.
    #[verifier::loop_isolation(false)]
    pub fn format_value(&self, value: &JsonValue, depth: usize) -> (s: String)
        requires
            self.wf(),
            self.spec_config().max_depth < usize::MAX,
            cuts_ok(self.format(), jview(*value), depth as nat),
        ensures
            s@ == value_text(self.format(), jview(*value), depth as nat),
        decreases value,
    {
        let ghost f = self.format();
        if depth > self.config.max_depth {
            return "...".to_owned();
        }
        match value {
            JsonValue::Null => "null".to_owned(),
            JsonValue::Bool(b) => if *b { "true".to_owned() } else { "false".to_owned() },
            JsonValue::Number(n) => number_string(n),
            JsonValue::String(st) => {
                let len = byte_len(st.as_str());
                let mut s = String::new();
                if len > self.config.max_string_length {
                    push_str(&mut s, "\"");
                    let p = byte_prefix_of(st.as_str(), self.config.max_string_length);
                    push_str(&mut s, p.as_str());
                    push_str(&mut s, "...\" (");
                    push_dec(&mut s, len as u64);
                    push_str(&mut s, " chars)");
                } else {
                    push_str(&mut s, "\"");
                    push_str(&mut s, st.as_str());
                    push_str(&mut s, "\"");
                }
                s
            },
            JsonValue::Array(items) => {
                let n = items.len();
                proof {
                    lemma_jview_items_len(items@, n as int);
                }
                if n == 0 {
                    return "[]".to_owned();
                }
                if n > 5 && depth > 0 {
                    let mut s = String::new();
                    push_str(&mut s, "[");
                    push_dec(&mut s, n as u64);
                    push_str(&mut s, " items]");
                    return s;
                }
                let k: usize = if n < 10 { n } else { 10 };
                let ghost iv = jview_items(items@, n as int);
                let mut parts: Vec<String> = Vec::new();
                let mut i: usize = 0;
                while i < k
                    invariant
                        i <= k <= n,
                        n == items@.len(),
                        iv == jview_items(items@, n as int),
                        iv.len() == n,
                        items_ok(f, iv, k as int, (depth + 1) as nat),
                        views(parts@) == item_texts(f, iv, i as int, (depth + 1) as nat),
                    decreases k - i,
                {
                    proof {
                        assert(decreases_to!(items => items[i as int]));
                        lemma_jview_items_index(items@, n as int, i as int);
                        lemma_items_ok_prefix(f, iv, k as int, i + 1, (depth + 1) as nat);
                    }
                    let t = self.format_value(&items[i], depth + 1);
                    let ghost before = views(parts@);
                    parts.push(t);
                    proof {
                        assert(views(parts@) =~= before.push(t@));
                    }
                    i = i + 1;
                }
                let joined = join_strings(&parts, ", ");
                let mut s = String::new();
                push_str(&mut s, "[");
                push_str(&mut s, joined.as_str());
                if n > 10 {
                    push_str(&mut s, ", ... +");
                    push_dec(&mut s, (n - 10) as u64);
                    push_str(&mut s, " more]");
                } else {
                    push_str(&mut s, "]");
                }
                s
            },
            JsonValue::Object(es) => {
                let n = es.len();
                proof {
                    lemma_jview_entries_len(es@, n as int);
                }
                if n == 0 {
                    return "{}".to_owned();
                }
                if n > 5 && depth > 0 {
                    let mut s = String::new();
                    push_str(&mut s, "{");
                    push_dec(&mut s, n as u64);
                    push_str(&mut s, " keys}");
                    return s;
                }
                let k: usize = if n < 10 { n } else { 10 };
                let ghost ev = jview_entries(es@, n as int);
                let mut parts: Vec<String> = Vec::new();
                let mut i: usize = 0;
                while i < k
                    invariant
                        i <= k <= n,
                        n == es@.len(),
                        ev == jview_entries(es@, n as int),
                        ev.len() == n,
                        entries_ok(f, ev, k as int, (depth + 1) as nat),
                        views(parts@) == entry_texts(f, ev, i as int, (depth + 1) as nat),
                    decreases k - i,
                {
                    proof {
                        assert(decreases_to!(es => es[i as int]));
                        lemma_jview_entries_index(es@, n as int, i as int);
                        lemma_entries_ok_prefix(f, ev, k as int, i + 1, (depth + 1) as nat);
                    }
                    let key = es[i].0.as_str();
                    let mut t = String::new();
                    push_str(&mut t, key);
                    push_str(&mut t, ": ");
                    if self.is_sensitive(key) {
                        push_str(&mut t, "********");
                    } else {
                        let fv = self.format_value(&es[i].1, depth + 1);
                        push_str(&mut t, fv.as_str());
                    }
                    let ghost before = views(parts@);
                    parts.push(t);
                    proof {
                        assert(views(parts@) =~= before.push(t@));
                    }
                    i = i + 1;
                }
                let joined = join_strings(&parts, ", ");
                let mut s = String::new();
                push_str(&mut s, "{");
                push_str(&mut s, joined.as_str());
                if n > 10 {
                    push_str(&mut s, "} +");
                    push_dec(&mut s, (n - 10) as u64);
                    push_str(&mut s, " more");
                } else {
                    push_str(&mut s, "}");
                }
                s
            },
        }
    }
}

impl ContextCallback {
    /// Whether `value` can be shown at `depth`: every string that showing it
    /// cuts is cut between two characters.
    #[verifier::loop_isolation(false)]
    pub fn can_show_value(&self, value: &JsonValue, depth: usize) -> (b: bool)
        requires
            self.wf(),
            self.spec_config().max_depth < usize::MAX,
        ensures
            b == cuts_ok(self.format(), jview(*value), depth as nat),
        decreases value,
    {
        let ghost f = self.format();
        if depth > self.config.max_depth {
            return true;
        }
        match value {
            JsonValue::String(st) => {
                if byte_len(st.as_str()) > self.config.max_string_length {
                    at_boundary(st.as_str(), self.config.max_string_length)
                } else {
                    true
                }
            },
            JsonValue::Array(items) => {
                let n = items.len();
                proof {
                    lemma_jview_items_len(items@, n as int);
                }
                if n == 0 || (n > 5 && depth > 0) {
                    return true;
                }
                let k: usize = if n < 10 { n } else { 10 };
                let ghost iv = jview_items(items@, n as int);
                let mut ok = true;
                let mut i: usize = 0;
                while i < k
                    invariant
                        i <= k <= n,
                        n == items@.len(),
                        iv == jview_items(items@, n as int),
                        iv.len() == n,
                        ok == items_ok(f, iv, i as int, (depth + 1) as nat),
                    decreases k - i,
                {
                    proof {
                        assert(decreases_to!(items => items[i as int]));
                        lemma_jview_items_index(items@, n as int, i as int);
                    }
                    let sub = self.can_show_value(&items[i], depth + 1);
                    ok = ok && sub;
                    i = i + 1;
                }
                ok
            },
            JsonValue::Object(es) => {
                let n = es.len();
                proof {
                    lemma_jview_entries_len(es@, n as int);
                }
                if n == 0 || (n > 5 && depth > 0) {
                    return true;
                }
                let k: usize = if n < 10 { n } else { 10 };
                let ghost ev = jview_entries(es@, n as int);
                let mut ok = true;
                let mut i: usize = 0;
                while i < k
                    invariant
                        i <= k <= n,
                        n == es@.len(),
                        ev == jview_entries(es@, n as int),
                        ev.len() == n,
                        ok == entries_ok(f, ev, i as int, (depth + 1) as nat),
                    decreases k - i,
                {
                    proof {
                        assert(decreases_to!(es => es[i as int]));
                        lemma_jview_entries_index(es@, n as int, i as int);
                    }
                    let masked = self.is_sensitive(es[i].0.as_str());
                    let sub = if masked {
                        true
                    } else {
                        self.can_show_value(&es[i].1, depth + 1)
                    };
                    ok = ok && (masked || sub);
                    i = i + 1;
                }
                ok
            },
            _ => true,
        }
    }
}

impl ContextCallback {
    /// Whether every listed, unmasked variable can be shown.
    fn can_show_variables(&self, vars: &HostTable<JsonValue>) -> (b: bool)
        requires
            self.wf(),
            vars.wf(),
            self.spec_config().max_depth < usize::MAX,
        ensures
            b == vars_printable(self.spec_config(), self.format(), json_map(vars@)),
    {
        let ghost c = self.spec_config();
        let ghost f = self.format();
        let ghost m = json_map(vars@);
        proof {
            vars.lemma_view();
        }
        let n = vars.len();
        let mut i: usize = 0;
        while i < n
            invariant
                self.wf(),
                vars.wf(),
                self.spec_config().max_depth < usize::MAX,
                c == self.spec_config(),
                f == self.format(),
                m == json_map(vars@),
                n == vars.names().len(),
                i <= n,
                forall|j: int| 0 <= j < i && var_listed(c.verbosity, #[trigger] vars.names()[j])
                    && !sensitive(f.mask, f.patterns, vars.names()[j]) ==> cuts_ok(f, m[vars.names()[j]], 0),
            decreases n - i,
        {
            let (key, value) = vars.entry_ref(i);
            if self.listed(key.as_str()) && !self.is_sensitive(key.as_str()) {
                if !self.can_show_value(value, 0) {
                    proof {
                        assert(m.contains_key(key@));
                    }
                    return false;
                }
            }
            i = i + 1;
        }
        proof {
            assert forall|k: Seq<char>| #[trigger] m.contains_key(k) && var_listed(c.verbosity, k) && !sensitive(
                f.mask,
                f.patterns,
                k,
            ) implies cuts_ok(f, m[k], 0) by {
                assert(vars.names().contains(k));
                let j = choose|j: int| 0 <= j < vars.names().len() && vars.names()[j] == k;
                assert(var_listed(c.verbosity, vars.names()[j]));
            }
        }
        true
    }

    /// Whether every fact that is shown can be shown.
    fn can_show_facts(&self, facts: &HostTable<JsonValue>) -> (b: bool)
        requires
            self.wf(),
            facts.wf(),
            self.spec_config().max_depth < usize::MAX,
        ensures
            b == facts_printable(self.spec_config(), self.format(), facts.names(), json_map(facts@)),
    {
        let ghost c = self.spec_config();
        let ghost f = self.format();
        let ghost m = json_map(facts@);
        let ghost ns = facts.names();
        proof {
            facts.lemma_view();
            assert(ns.subrange(0, 0) =~= Seq::<Seq<char>>::empty());
        }
        let level = self.config.verbosity.level();
        let n = facts.len();
        let mut others: usize = 0;
        let mut i: usize = 0;
        while i < n
            invariant
                self.wf(),
                facts.wf(),
                self.spec_config().max_depth < usize::MAX,
                c == self.spec_config(),
                f == self.format(),
                m == json_map(facts@),
                ns == facts.names(),
                level == rank(c.verbosity),
                n == ns.len(),
                i <= n,
                others == in_category(ns.subrange(0, i as int), 2).len(),
                others <= i,
                forall|j: int| 0 <= j < i && #[trigger] fact_shown(c, ns, j) ==> cuts_ok(f, m[ns[j]], 0),
            decreases n - i,
        {
            let (key, value) = facts.entry_ref(i);
            let cat = category_of(key.as_str());
            proof {
                assert(ns[i as int] == key@);
                assert(ns.subrange(0, i + 1).drop_last() =~= ns.subrange(0, i as int));
                assert(ns.subrange(0, i + 1).last() == key@);
            }
            let shown = self.config.show_facts && (cat == 0 || (cat == 1 && level >= 2) || (cat == 2 && level >= 3
                && others < 20));
            proof {
                assert(shown == fact_shown(c, ns, i as int));
            }
            if shown && !self.can_show_value(value, 0) {
                proof {
                    assert(fact_shown(c, ns, i as int));
                }
                return false;
            }
            if cat == 2 {
                others = others + 1;
            }
            i = i + 1;
        }
        true
    }

    /// Whether the other fields of a registered result that are shown can
    /// be shown.
    fn can_show_other_fields(&self, es: &Vec<(String, JsonValue)>) -> (b: bool)
        requires
            self.wf(),
            self.spec_config().max_depth < usize::MAX,
        ensures
            b == forall|i: int| 0 <= i < es@.len() as int && !known_field(#[trigger] jview_entries(es@, es@.len() as int)[i].0)
                && !sensitive(self.format().mask, self.format().patterns, jview_entries(es@, es@.len() as int)[i].0)
                ==> cuts_ok(self.format(), jview_entries(es@, es@.len() as int)[i].1, 0),
    {
        let ghost f = self.format();
        let ghost ev = jview_entries(es@, es@.len() as int);
        proof {
            lemma_jview_entries_len(es@, es@.len() as int);
        }
        let mut i: usize = 0;
        while i < es.len()
            invariant
                self.wf(),
                self.spec_config().max_depth < usize::MAX,
                f == self.format(),
                ev == jview_entries(es@, es@.len() as int),
                ev.len() == es@.len(),
                i <= es@.len(),
                forall|j: int| 0 <= j < i && !known_field(#[trigger] ev[j].0) && !sensitive(f.mask, f.patterns, ev[j].0)
                    ==> cuts_ok(f, ev[j].1, 0),
            decreases es.len() - i,
        {
            proof {
                lemma_jview_entries_index(es@, es@.len() as int, i as int);
            }
            let k = es[i].0.as_str();
            let known = str_eq(k, "changed") || str_eq(k, "failed") || str_eq(k, "skipped") || str_eq(k, "rc")
                || str_eq(k, "stdout") || str_eq(k, "stderr") || str_eq(k, "msg") || str_eq(k, "stdout_lines")
                || str_eq(k, "stderr_lines");
            if !known && !self.is_sensitive(k) {
                if !self.can_show_value(&es[i].1, 0) {
                    proof {
                        assert(!known_field(ev[i as int].0));
                    }
                    return false;
                }
            }
            i = i + 1;
        }
        true
    }

    /// Whether a registered result can be shown.
    fn can_show_registered_value(&self, value: &JsonValue) -> (b: bool)
        requires
            self.wf(),
            self.spec_config().max_depth < usize::MAX,
        ensures
            b == registered_ok(self.spec_config(), self.format(), jview(*value)),
    {
        match value {
            JsonValue::Object(es) => {
                let ghost ev = jview_entries(es@, es@.len() as int);
                proof {
                    assert(jview(*value) == JsonView::Object(ev));
                    lemma_jview_entries_len(es@, es@.len() as int);
                }
                let rc_ok = match find_entry(es, "rc") {
                    Some(x) => self.can_show_value(x, 0),
                    None => true,
                };
                let msg_ok = match find_entry(es, "msg") {
                    Some(x) => self.can_show_value(x, 0),
                    None => true,
                };
                let out_ok = match find_entry(es, "stdout") {
                    Some(x) => match x {
                        JsonValue::String(t) => if byte_len(t.as_str()) > 100 {
                            at_boundary(t.as_str(), 100)
                        } else {
                            true
                        },
                        _ => true,
                    },
                    None => true,
                };
                let rest_ok = if self.config.verbosity.level() >= 2 {
                    self.can_show_other_fields(es)
                } else {
                    true
                };
                rc_ok && msg_ok && out_ok && rest_ok
            },
            _ => {
                proof {
                    assert(!(jview(*value) is Object));
                }
                self.can_show_value(value, 1)
            },
        }
    }

    /// Whether every registered result can be shown.
    fn can_show_registered(&self, reg: &HostTable<JsonValue>) -> (b: bool)
        requires
            self.wf(),
            reg.wf(),
            self.spec_config().max_depth < usize::MAX,
        ensures
            b == registered_printable(self.spec_config(), self.format(), json_map(reg@)),
    {
        let ghost c = self.spec_config();
        let ghost f = self.format();
        let ghost m = json_map(reg@);
        proof {
            reg.lemma_view();
        }
        if !self.config.show_registered {
            return true;
        }
        let n = reg.len();
        let mut i: usize = 0;
        while i < n
            invariant
                self.wf(),
                reg.wf(),
                self.spec_config().max_depth < usize::MAX,
                c == self.spec_config(),
                f == self.format(),
                m == json_map(reg@),
                n == reg.names().len(),
                c.show_registered,
                i <= n,
                forall|j: int| 0 <= j < i ==> registered_ok(c, f, m[#[trigger] reg.names()[j]]),
            decreases n - i,
        {
            let (key, value) = reg.entry_ref(i);
            if !self.can_show_registered_value(value) {
                proof {
                    assert(m.contains_key(key@));
                }
                return false;
            }
            i = i + 1;
        }
        proof {
            assert forall|k: Seq<char>| #[trigger] m.contains_key(k) implies registered_ok(c, f, m[k]) by {
                assert(reg.names().contains(k));
                let j = choose|j: int| 0 <= j < reg.names().len() && reg.names()[j] == k;
                assert(registered_ok(c, f, m[reg.names()[j]]));
            }
        }
        true
    }
}

/// `items_ok` for `k` items covers every shorter prefix.
pub proof fn lemma_items_ok_prefix(f: ValueFormat, s: Seq<JsonView>, k: int, j: int, depth: nat)
    requires
        items_ok(f, s, k, depth),
        0 < j <= k <= s.len(),
    ensures
        items_ok(f, s, j, depth),
        cuts_ok(f, s[j - 1], depth),
    decreases k - j,
{
    if j < k {
        lemma_items_ok_prefix(f, s, k - 1, j, depth);
    }
}

/// `entries_ok` for `k` entries covers every shorter prefix.
pub proof fn lemma_entries_ok_prefix(f: ValueFormat, s: Seq<(Seq<char>, JsonView)>, k: int, j: int, depth: nat)
    requires
        entries_ok(f, s, k, depth),
        0 < j <= k <= s.len(),
    ensures
        entries_ok(f, s, j, depth),
        sensitive(f.mask, f.patterns, s[j - 1].0) || cuts_ok(f, s[j - 1].1, depth),
    decreases k - j,
{
    if j < k {
        lemma_entries_ok_prefix(f, s, k - 1, j, depth);
    }
}

// ---------------------------------------------------------------------------
// Context sections
// ---------------------------------------------------------------------------

/// A section title line: `Title:`.
pub open spec fn section_line(title: Seq<char>) -> Seq<SpanView> {
    seq![(title, bold_style(Color::Yellow)), (":"@, plain_style())]
}

/// A `name: value` line indented by `indent` levels of two spaces.
pub open spec fn var_line(name: Seq<char>, value: Seq<char>, indent: nat) -> Seq<SpanView> {
    seq![(repeat_char(' ', 2 * indent), plain_style()), (name, color_style(Color::Cyan)), (": "@ + value, plain_style())]
}

/// A dimmed note line, indented by two spaces.
pub open spec fn note_line(text: Seq<char>) -> Seq<SpanView> {
    seq![("  "@, plain_style()), (text, color_style(Color::BrightBlack))]
}

fn section(title: &str) -> (l: Vec<Span>)
    ensures
        line_view(l@) == section_line(title@),
{
    let mut l = Vec::new();
    push_span(&mut l, title, Style::bold(Color::Yellow));
    push_span(&mut l, ":", Style::plain());
    proof {
        assert(line_view(l@) =~= section_line(title@));
    }
    l
}

fn var(name: &str, value: &str, indent: usize) -> (l: Vec<Span>)
    requires
        indent <= 2,
    ensures
        line_view(l@) == var_line(name@, value@, indent as nat),
{
    let mut l = Vec::new();
    push_owned(&mut l, repeat_string(' ', 2 * indent), Style::plain());
    push_span(&mut l, name, Style::fg(Color::Cyan));
    let mut t = String::new();
    push_str(&mut t, ": ");
    push_str(&mut t, value);
    push_owned(&mut l, t, Style::plain());
    proof {
        assert(line_view(l@) =~= var_line(name@, value@, indent as nat));
    }
    l
}

fn note(text: &str) -> (l: Vec<Span>)
    ensures
        line_view(l@) == note_line(text@),
{
    let mut l = Vec::new();
    push_span(&mut l, "  ", Style::plain());
    push_span(&mut l, text, Style::fg(Color::BrightBlack));
    proof {
        assert(line_view(l@) =~= note_line(text@));
    }
    l
}

/// Whether a variable is listed at this verbosity: `ansible_` variables
/// only at Debug, `_` variables only from Verbose.
pub open spec fn var_listed(v: ContextVerbosity, name: Seq<char>) -> bool {
    !(rank(v) < 3 && starts_with_seq(name, "ansible_"@)) && !(rank(v) < 2 && starts_with_seq(name, "_"@))
}

/// A value as shown for `name`: masked when sensitive.
pub open spec fn shown_value(f: ValueFormat, name: Seq<char>, v: JsonView) -> Seq<char> {
    if sensitive(f.mask, f.patterns, name) {
        "********"@
    } else {
        value_text(f, v, 0)
    }
}

/// Whether a listed variable is left out as empty.
pub open spec fn var_empty(show_empty: bool, v: JsonView, shown: Seq<char>) -> bool {
    !show_empty && (v == JsonView::Null || shown == "null"@ || shown == "\"\""@)
}

/// The lines of the variables `ns` (in that order).
pub open spec fn var_lines(c: ContextCallbackConfig, f: ValueFormat, ns: Seq<Seq<char>>, m: Map<Seq<char>, JsonView>) -> Seq<Seq<SpanView>>
    decreases ns.len(),
{
    if ns.len() == 0 {
        Seq::empty()
    } else {
        let init = var_lines(c, f, ns.drop_last(), m);
        let n = ns.last();
        let shown = shown_value(f, n, m[n]);
        if var_listed(c.verbosity, n) && !var_empty(c.show_empty, m[n], shown) {
            init.push(var_line(n, shown, 1))
        } else {
            init
        }
    }
}

/// The variables section.
pub open spec fn variables_lines(c: ContextCallbackConfig, f: ValueFormat, m: Map<Seq<char>, JsonView>) -> Seq<Seq<SpanView>> {
    if m.dom().len() == 0 && !c.show_empty {
        Seq::empty()
    } else if m.dom().len() == 0 {
        seq![section_line("Variables"@), note_line("(none)"@)]
    } else {
        seq![section_line("Variables"@)] + var_lines(c, f, sorted_keys(m), m)
    }
}

/// What showing the variables needs: every listed, unmasked value can be
/// shown.
pub open spec fn vars_printable(c: ContextCallbackConfig, f: ValueFormat, m: Map<Seq<char>, JsonView>) -> bool {
    forall|k: Seq<char>| #[trigger] m.contains_key(k) && var_listed(c.verbosity, k) && !sensitive(f.mask, f.patterns, k)
        ==> cuts_ok(f, m[k], 0)
}

/// The fact categories: system, network, other.
pub open spec fn fact_category(name: Seq<char>) -> nat {
    if starts_with_seq(name, "ansible_distribution"@) || starts_with_seq(name, "ansible_os"@) || starts_with_seq(
        name,
        "ansible_kernel"@,
    ) || starts_with_seq(name, "ansible_machine"@) || starts_with_seq(name, "ansible_architecture"@) || name
        == "ansible_hostname"@ || name == "ansible_fqdn"@ {
        0
    } else if starts_with_seq(name, "ansible_default_ipv"@) || starts_with_seq(name, "ansible_interfaces"@)
        || contains_seq(name, "_ip"@) || contains_seq(name, "_mac"@) {
        1
    } else {
        2
    }
}

/// The names of category `cat`, in order.
pub open spec fn in_category(ns: Seq<Seq<char>>, cat: nat) -> Seq<Seq<char>>
    decreases ns.len(),
{
    if ns.len() == 0 {
        Seq::empty()
    } else if fact_category(ns.last()) == cat {
        in_category(ns.drop_last(), cat).push(ns.last())
    } else {
        in_category(ns.drop_last(), cat)
    }
}

/// The lines of facts `ns`, each under its short name.
pub open spec fn fact_lines(f: ValueFormat, ns: Seq<Seq<char>>, m: Map<Seq<char>, JsonView>) -> Seq<Seq<SpanView>> {
    Seq::new(ns.len(), |i: int| var_line(strip_prefix_seq(ns[i], "ansible_"@), value_text(f, m[ns[i]], 0), 2))
}

/// A group of facts under its title (nothing when the group is empty).
pub open spec fn fact_group(title: Seq<char>, lines: Seq<Seq<SpanView>>) -> Seq<Seq<SpanView>> {
    if lines.len() == 0 {
        Seq::empty()
    } else {
        seq![seq![("  "@, plain_style()), (title, color_style(Color::BrightBlack)), (":"@, plain_style())]] + lines
    }
}

/// The facts section: system facts, network facts from Verbose, and up to
/// twenty other facts at Debug.
pub open spec fn facts_lines(c: ContextCallbackConfig, f: ValueFormat, ns: Seq<Seq<char>>, m: Map<Seq<char>, JsonView>) -> Seq<Seq<SpanView>> {
    if !c.show_facts || (ns.len() == 0 && !c.show_empty) {
        Seq::empty()
    } else if ns.len() == 0 {
        seq![Seq::<SpanView>::empty(), section_line("Facts"@), note_line("(none gathered)"@)]
    } else {
        let sys = in_category(ns, 0);
        let net = in_category(ns, 1);
        let other = in_category(ns, 2);
        let shown_other = if other.len() > 20 { other.subrange(0, 20) } else { other };
        seq![Seq::<SpanView>::empty(), section_line("Facts"@)] + fact_group("System"@, fact_lines(f, sys, m))
            + if rank(c.verbosity) >= 2 { fact_group("Network"@, fact_lines(f, net, m)) } else { Seq::empty() }
            + if rank(c.verbosity) >= 3 && other.len() > 0 {
            fact_group("Other"@, fact_lines(f, shown_other, m)) + if other.len() > 20 {
                seq![seq![("    "@, plain_style()), ("..."@, color_style(Color::BrightBlack)), (" +"@ + dec((other.len() - 20) as nat) + " more facts"@, plain_style())]]
            } else {
                Seq::empty()
            }
        } else {
            Seq::empty()
        }
    }
}

/// Whether the fact at position `j` of `ns` is shown: facts are shown at
/// all, and it is a system fact, a network fact from Verbose, or at Debug
/// one of the first twenty other facts.
pub open spec fn fact_shown(c: ContextCallbackConfig, ns: Seq<Seq<char>>, j: int) -> bool {
    let cat = fact_category(ns[j]);
    c.show_facts && (cat == 0 || (cat == 1 && rank(c.verbosity) >= 2) || (cat == 2 && rank(c.verbosity) >= 3
        && in_category(ns.subrange(0, j), 2).len() < 20))
}

/// What showing the facts needs: every fact shown can be shown.
pub open spec fn facts_printable(c: ContextCallbackConfig, f: ValueFormat, ns: Seq<Seq<char>>, m: Map<Seq<char>, JsonView>) -> bool {
    forall|j: int| 0 <= j < ns.len() && #[trigger] fact_shown(c, ns, j) ==> cuts_ok(f, m[ns[j]], 0)
}

/// Position `i` holds the first entry named `key`.
pub open spec fn first_named(es: Seq<(Seq<char>, JsonView)>, key: Seq<char>, i: int) -> bool {
    0 <= i < es.len() && es[i].0 == key && forall|j: int| 0 <= j < i ==> es[j].0 != key
}

/// The value of the first entry named `key`.
pub open spec fn obj_get(es: Seq<(Seq<char>, JsonView)>, key: Seq<char>) -> Option<JsonView> {
    if exists|i: int| 0 <= i < es.len() && es[i].0 == key {
        Some(es[choose|i: int| first_named(es, key, i)].1)
    } else {
        None
    }
}

/// `v` is `true`.
pub open spec fn is_true(v: JsonView) -> bool {
    v == JsonView::Bool(true)
}

/// The fields of a registered result shown on their own lines.
pub open spec fn known_field(k: Seq<char>) -> bool {
    k == "changed"@ || k == "failed"@ || k == "skipped"@ || k == "rc"@ || k == "stdout"@ || k == "stderr"@
        || k == "msg"@ || k == "stdout_lines"@ || k == "stderr_lines"@
}

/// A `    label: value` line of a registered result.
pub open spec fn field_line(label: Seq<char>, value: Seq<SpanView>) -> Seq<SpanView> {
    seq![("    "@, plain_style()), (label, color_style(Color::BrightBlack)), (": "@, plain_style())] + value
}

/// `stdout` as shown: cut to 100 bytes with `...`.
pub open spec fn stdout_text(s: Seq<char>) -> Seq<char> {
    if (utf8_len(s) as usize) > 100 {
        byte_prefix(s, 100) + "..."@
    } else {
        s
    }
}

/// The `changed` line of a registered result.
pub open spec fn changed_part(es: Seq<(Seq<char>, JsonView)>) -> Seq<Seq<SpanView>> {
    match obj_get(es, "changed"@) {
        Some(x) => seq![field_line("changed"@, if is_true(x) { seq![("true"@, color_style(Color::Yellow))] } else { seq![("false"@, plain_style())] })],
        None => Seq::empty(),
    }
}

/// The line of a status flag that is `true`.
pub open spec fn flag_part(es: Seq<(Seq<char>, JsonView)>, key: Seq<char>, color: Color) -> Seq<Seq<SpanView>> {
    match obj_get(es, key) {
        Some(x) => if is_true(x) { seq![field_line(key, seq![("true"@, color_style(color))])] } else { Seq::empty() },
        None => Seq::empty(),
    }
}

/// The line of a field shown as a value.
pub open spec fn value_part(f: ValueFormat, es: Seq<(Seq<char>, JsonView)>, key: Seq<char>) -> Seq<Seq<SpanView>> {
    match obj_get(es, key) {
        Some(x) => seq![field_line(key, seq![(value_text(f, x, 0), plain_style())])],
        None => Seq::empty(),
    }
}

/// The `stdout` line: a non-empty string, quoted and cut.
pub open spec fn stdout_part(es: Seq<(Seq<char>, JsonView)>) -> Seq<Seq<SpanView>> {
    match obj_get(es, "stdout"@) {
        Some(JsonView::Str(t)) => if t.len() > 0 {
            seq![field_line("stdout"@, seq![("\""@ + stdout_text(t) + "\""@, plain_style())])]
        } else {
            Seq::empty()
        },
        _ => Seq::empty(),
    }
}

/// The head line of a registered result.
pub open spec fn registered_head(name: Seq<char>) -> Seq<SpanView> {
    seq![("  "@, plain_style()), (name, bold_style(Color::Cyan)), (":"@, plain_style())]
}

/// The lines of one registered result.
pub open spec fn registered_result_lines(c: ContextCallbackConfig, f: ValueFormat, name: Seq<char>, v: JsonView) -> Seq<Seq<SpanView>> {
    match v {
        JsonView::Object(es) => seq![registered_head(name)] + changed_part(es) + flag_part(es, "failed"@, Color::Red)
            + flag_part(es, "skipped"@, Color::Cyan) + value_part(f, es, "rc"@) + stdout_part(es) + value_part(f, es, "msg"@)
            + if rank(c.verbosity) >= 2 { other_field_lines(f, es) } else { Seq::empty() },
        _ => seq![registered_head(name), seq![("    "@ + value_text(f, v, 1), plain_style())]],
    }
}

/// The lines of the other fields of a registered result, in order.
pub open spec fn other_field_lines(f: ValueFormat, es: Seq<(Seq<char>, JsonView)>) -> Seq<Seq<SpanView>>
    decreases es.len(),
{
    if es.len() == 0 {
        Seq::empty()
    } else {
        let init = other_field_lines(f, es.drop_last());
        let (k, v) = es.last();
        if known_field(k) {
            init
        } else {
            init.push(field_line(k, seq![(shown_value(f, k, v), plain_style())]))
        }
    }
}


impl ContextCallback {
    /// Whether `name` is listed at the configured verbosity.
    fn listed(&self, name: &str) -> (b: bool)
        ensures
            b == var_listed(self.spec_config().verbosity, name@),
    {
        let level = self.config.verbosity.level();
        !(level < 3 && str_starts_with(name, "ansible_")) && !(level < 2 && str_starts_with(name, "_"))
    }

    /// The variables section: sorted by name, `ansible_` variables only at
    /// Debug, `_` variables only from Verbose, sensitive values masked and
    /// empty values left out unless configured.
    pub fn print_variables(&self, vars: &HostTable<JsonValue>) -> (out: Vec<Vec<Span>>)
        requires
            self.wf(),
            vars.wf(),
            self.spec_config().max_depth < usize::MAX,
            vars_printable(self.spec_config(), self.format(), json_map(vars@)),
        ensures
            lines_view(out@) == variables_lines(self.spec_config(), self.format(), json_map(vars@)),
    {
        let ghost c = self.spec_config();
        let ghost f = self.format();
        let ghost m = json_map(vars@);
        let mut out: Vec<Vec<Span>> = Vec::new();
        proof {
            vars.lemma_view();
            assert(m.dom() =~= vars@.dom());
        }
        let n = vars.len();
        if n == 0 && !self.config.show_empty {
            proof {
                assert(lines_view(out@) =~= Seq::<Seq<SpanView>>::empty());
            }
            return out;
        }
        push_line(&mut out, section("Variables"));
        if n == 0 {
            push_line(&mut out, note("(none)"));
            proof {
                assert(lines_view(out@) =~= seq![section_line("Variables"@), note_line("(none)"@)]);
            }
            return out;
        }
        let names = vars.sorted_names();
        let ghost ns = views(names@);
        proof {
            assert forall|k: Seq<char>| m.contains_key(k) <==> ns.contains(k) by {}
            lemma_sorted_keys(ns, m);
            assert(ns.subrange(0, 0) =~= Seq::<Seq<char>>::empty());
        }
        let mut i: usize = 0;
        while i < names.len()
            invariant
                self.wf(),
                vars.wf(),
                self.spec_config().max_depth < usize::MAX,
                c == self.spec_config(),
                f == self.format(),
                m == json_map(vars@),
                vars_printable(c, f, m),
                ns == views(names@),
                ns.len() == names@.len(),
                forall|k: Seq<char>| m.contains_key(k) <==> ns.contains(k),
                i <= names.len(),
                lines_view(out@) == seq![section_line("Variables"@)] + var_lines(c, f, ns.subrange(0, i as int), m),
            decreases names.len() - i,
        {
            let name = names[i].as_str();
            let ghost before = lines_view(out@);
            proof {
                assert(ns[i as int] == name@);
                assert(ns.contains(name@));
                assert(ns.subrange(0, i + 1).drop_last() =~= ns.subrange(0, i as int));
                assert(ns.subrange(0, i + 1).last() == name@);
            }
            if self.listed(name) {
                let value = vars.get_ref(name).unwrap();
                proof {
                    assert(m[name@] == jview(*value));
                }
                let formatted = self.mask_value(name, value);
                let skip = !self.config.show_empty && (value.is_null() || str_eq(formatted.as_str(), "null")
                    || str_eq(formatted.as_str(), "\"\""));
                proof {
                    assert(formatted@ == shown_value(f, name@, m[name@]));
                    assert((*value is Null) == (jview(*value) == JsonView::Null));
                }
                if !skip {
                    push_line(&mut out, var(name, formatted.as_str(), 1));
                }
            }
            proof {
                assert(lines_view(out@) =~= seq![section_line("Variables"@)] + var_lines(c, f, ns.subrange(0, i + 1), m));
            }
            i = i + 1;
        }
        proof {
            assert(ns.subrange(0, i as int) =~= ns);
        }
        out
    }
}


/// At most `limit` names of `s`.
pub open spec fn capped(s: Seq<Seq<char>>, limit: nat) -> Seq<Seq<char>> {
    if s.len() > limit {
        s.subrange(0, limit as int)
    } else {
        s
    }
}

/// A category holds no more names than the list.
pub proof fn lemma_in_category_len(ns: Seq<Seq<char>>, cat: nat)
    ensures
        in_category(ns, cat).len() <= ns.len(),
    decreases ns.len(),
{
    if ns.len() > 0 {
        lemma_in_category_len(ns.drop_last(), cat);
    }
}

/// The category of a fact name.
fn category_of(name: &str) -> (c: u8)
    ensures
        c == fact_category(name@),
{
    if str_starts_with(name, "ansible_distribution") || str_starts_with(name, "ansible_os") || str_starts_with(
        name,
        "ansible_kernel",
    ) || str_starts_with(name, "ansible_machine") || str_starts_with(name, "ansible_architecture") || str_eq(
        name,
        "ansible_hostname",
    ) || str_eq(name, "ansible_fqdn") {
        0
    } else if str_starts_with(name, "ansible_default_ipv") || str_starts_with(name, "ansible_interfaces")
        || str_contains(name, "_ip") || str_contains(name, "_mac") {
        1
    } else {
        2
    }
}

/// The title line of a group of facts.
pub open spec fn group_title_line(title: Seq<char>) -> Seq<SpanView> {
    seq![("  "@, plain_style()), (title, color_style(Color::BrightBlack)), (":"@, plain_style())]
}

fn group_title(title: &str) -> (l: Vec<Span>)
    ensures
        line_view(l@) == group_title_line(title@),
{
    let mut l = Vec::new();
    push_span(&mut l, "  ", Style::plain());
    push_span(&mut l, title, Style::fg(Color::BrightBlack));
    push_span(&mut l, ":", Style::plain());
    proof {
        assert(line_view(l@) =~= group_title_line(title@));
    }
    l
}

impl ContextCallback {
    /// The lines of at most `limit` facts of category `cat`, in insertion
    /// order, and how many facts the category has.
    fn fact_category_lines(&self, facts: &HostTable<JsonValue>, cat: u8, limit: usize) -> (r: (Vec<Vec<Span>>, usize))
        requires
            self.wf(),
            facts.wf(),
            self.spec_config().max_depth < usize::MAX,
            forall|j: int| 0 <= j < facts.names().len() && fact_category(#[trigger] facts.names()[j]) == cat
                && in_category(facts.names().subrange(0, j), cat as nat).len() < limit
                ==> cuts_ok(self.format(), json_map(facts@)[facts.names()[j]], 0),
        ensures
            lines_view(r.0@) == fact_lines(
                self.format(),
                capped(in_category(facts.names(), cat as nat), limit as nat),
                json_map(facts@),
            ),
            r.1 == in_category(facts.names(), cat as nat).len(),
    {
        let ghost f = self.format();
        let ghost m = json_map(facts@);
        let ghost ns = facts.names();
        proof {
            facts.lemma_view();
        }
        let n = facts.len();
        let mut out: Vec<Vec<Span>> = Vec::new();
        let mut count: usize = 0;
        let mut i: usize = 0;
        proof {
            assert(ns.subrange(0, 0) =~= Seq::<Seq<char>>::empty());
            assert(lines_view(out@) =~= fact_lines(f, capped(in_category(ns.subrange(0, 0), cat as nat), limit as nat), m));
        }
        while i < n
            invariant
                self.wf(),
                facts.wf(),
                self.spec_config().max_depth < usize::MAX,
                f == self.format(),
                m == json_map(facts@),
                ns == facts.names(),
                n == ns.len(),
                forall|j: int| 0 <= j < ns.len() && fact_category(#[trigger] ns[j]) == cat
                    && in_category(ns.subrange(0, j), cat as nat).len() < limit ==> cuts_ok(f, m[ns[j]], 0),
                forall|k: Seq<char>| facts@.contains_key(k) <==> ns.contains(k),
                i <= n,
                count == in_category(ns.subrange(0, i as int), cat as nat).len(),
                count <= i,
                lines_view(out@) == fact_lines(f, capped(in_category(ns.subrange(0, i as int), cat as nat), limit as nat), m),
            decreases n - i,
        {
            let (name, value) = facts.entry_ref(i);
            let ghost prev = in_category(ns.subrange(0, i as int), cat as nat);
            proof {
                assert(ns.subrange(0, i + 1).drop_last() =~= ns.subrange(0, i as int));
                assert(ns.subrange(0, i + 1).last() == name@);
                assert(m[name@] == jview(*value));
            }
            if category_of(name.as_str()) == cat {
                if count < limit {
                    let short = strip_prefix_or_keep(name.as_str(), "ansible_");
                    proof {
                        assert(ns[i as int] == name@);
                        assert(cuts_ok(f, m[ns[i as int]], 0));
                    }
                    let text = self.format_value(value, 0);
                    let ghost before = lines_view(out@);
                    push_line(&mut out, var(short.as_str(), text.as_str(), 2));
                    proof {
                        let cur = prev.push(name@);
                        assert(in_category(ns.subrange(0, i + 1), cat as nat) == cur);
                        assert(capped(cur, limit as nat) =~= capped(prev, limit as nat).push(name@));
                        assert(lines_view(out@) =~= fact_lines(f, capped(cur, limit as nat), m));
                    }
                } else {
                    proof {
                        let cur = prev.push(name@);
                        assert(in_category(ns.subrange(0, i + 1), cat as nat) == cur);
                        assert(capped(cur, limit as nat) =~= capped(prev, limit as nat));
                    }
                }
                count = count + 1;
            } else {
                proof {
                    assert(in_category(ns.subrange(0, i + 1), cat as nat) == prev);
                }
            }
            i = i + 1;
        }
        proof {
            assert(ns.subrange(0, i as int) =~= ns);
        }
        (out, count)
    }

    /// The facts section: system facts, network facts from Verbose, and at
    /// Debug up to twenty other facts with a count of the rest.
    #[verifier::rlimit(40)]
    pub fn print_facts(&self, facts: &HostTable<JsonValue>) -> (out: Vec<Vec<Span>>)
        requires
            self.wf(),
            facts.wf(),
            self.spec_config().max_depth < usize::MAX,
            facts_printable(self.spec_config(), self.format(), facts.names(), json_map(facts@)),
        ensures
            lines_view(out@) == facts_lines(self.spec_config(), self.format(), facts.names(), json_map(facts@)),
    {
        let ghost c = self.spec_config();
        let ghost f = self.format();
        let ghost m = json_map(facts@);
        let ghost ns = facts.names();
        let mut out: Vec<Vec<Span>> = Vec::new();
        proof {
            facts.lemma_view();
        }
        let n = facts.len();
        if !self.config.show_facts || (n == 0 && !self.config.show_empty) {
            proof {
                assert(lines_view(out@) =~= Seq::<Seq<SpanView>>::empty());
            }
            return out;
        }
        push_line(&mut out, blank());
        push_line(&mut out, section("Facts"));
        if n == 0 {
            push_line(&mut out, note("(none gathered)"));
            proof {
                assert(lines_view(out@) =~= seq![Seq::<SpanView>::empty(), section_line("Facts"@), note_line("(none gathered)"@)]);
            }
            return out;
        }
        let ghost sys = in_category(ns, 0);
        let ghost net = in_category(ns, 1);
        let ghost other = in_category(ns, 2);
        proof {
            lemma_in_category_len(ns, 0);
            lemma_in_category_len(ns, 1);
            assert(capped(sys, n as nat) == sys);
            assert(capped(net, n as nat) == net);
            assert(capped(other, 20) == if other.len() > 20 { other.subrange(0, 20) } else { other });
        }
        let ghost head = lines_view(out@);
        proof {
            assert forall|j: int| 0 <= j < ns.len() && fact_category(#[trigger] ns[j]) == 0
                && in_category(ns.subrange(0, j), 0).len() < n implies cuts_ok(f, m[ns[j]], 0) by {
                assert(fact_shown(c, ns, j));
            }
        }
        let (sys_lines, _) = self.fact_category_lines(facts, 0, n);
        if sys_lines.len() > 0 {
            push_line(&mut out, group_title("System"));
            append_lines(&mut out, sys_lines);
        }
        proof {
            assert(lines_view(out@) =~= head + fact_group("System"@, fact_lines(f, sys, m)));
        }
        let ghost after_sys = lines_view(out@);
        let level = self.config.verbosity.level();
        if level >= 2 {
            proof {
                assert forall|j: int| 0 <= j < ns.len() && fact_category(#[trigger] ns[j]) == 1
                    && in_category(ns.subrange(0, j), 1).len() < n implies cuts_ok(f, m[ns[j]], 0) by {
                    assert(fact_shown(c, ns, j));
                }
            }
            let (net_lines, _) = self.fact_category_lines(facts, 1, n);
            if net_lines.len() > 0 {
                push_line(&mut out, group_title("Network"));
                append_lines(&mut out, net_lines);
            }
            proof {
                assert(lines_view(out@) =~= after_sys + fact_group("Network"@, fact_lines(f, net, m)));
            }
        } else {
            proof {
                assert(lines_view(out@) =~= after_sys + Seq::<Seq<SpanView>>::empty());
            }
        }
        let ghost after_net = lines_view(out@);
        if level >= 3 {
            proof {
                assert forall|j: int| 0 <= j < ns.len() && fact_category(#[trigger] ns[j]) == 2
                    && in_category(ns.subrange(0, j), 2).len() < 20 implies cuts_ok(f, m[ns[j]], 0) by {
                    assert(fact_shown(c, ns, j));
                }
            }
            let (other_lines, count) = self.fact_category_lines(facts, 2, 20);
            if count > 0 {
                push_line(&mut out, group_title("Other"));
                append_lines(&mut out, other_lines);
                let ghost after_group = lines_view(out@);
                let ghost group = fact_group(
                    "Other"@,
                    fact_lines(f, if other.len() > 20 { other.subrange(0, 20) } else { other }, m),
                );
                proof {
                    assert(after_group =~= after_net + group);
                }
                if count > 20 {
                    let mut l: Vec<Span> = Vec::new();
                    push_span(&mut l, "    ", Style::plain());
                    push_span(&mut l, "...", Style::fg(Color::BrightBlack));
                    let mut t = String::new();
                    push_str(&mut t, " +");
                    push_dec(&mut t, (count - 20) as u64);
                    push_str(&mut t, " more facts");
                    push_owned(&mut l, t, Style::plain());
                    proof {
                        assert(line_view(l@) =~= seq![("    "@, plain_style()), ("..."@, color_style(Color::BrightBlack)), (" +"@ + dec((other.len() - 20) as nat) + " more facts"@, plain_style())]);
                    }
                    push_line(&mut out, l);
                    proof {
                        assert(lines_view(out@) =~= after_net + (group + seq![seq![("    "@, plain_style()), ("..."@, color_style(Color::BrightBlack)), (" +"@ + dec((other.len() - 20) as nat) + " more facts"@, plain_style())]]));
                    }
                } else {
                    proof {
                        assert(lines_view(out@) =~= after_net + (group + Seq::<Seq<SpanView>>::empty()));
                    }
                }
            } else {
                proof {
                    assert(lines_view(out@) =~= after_net + Seq::<Seq<SpanView>>::empty());
                }
            }
        } else {
            proof {
                assert(lines_view(out@) =~= after_net + Seq::<Seq<SpanView>>::empty());
            }
        }
        out
    }
}


/// What showing one registered result needs: the values it shows can be
/// shown, and a long `stdout` is cut between two characters.
pub open spec fn registered_ok(c: ContextCallbackConfig, f: ValueFormat, v: JsonView) -> bool {
    match v {
        JsonView::Object(es) => {
            &&& (obj_get(es, "rc"@) matches Some(x) ==> cuts_ok(f, x, 0))
            &&& (obj_get(es, "msg"@) matches Some(x) ==> cuts_ok(f, x, 0))
            &&& (obj_get(es, "stdout"@) matches Some(JsonView::Str(t)) ==> ((utf8_len(t) as usize) > 100 ==> is_boundary(t, 100)))
            &&& (rank(c.verbosity) >= 2 ==> forall|i: int| 0 <= i < es.len() && !known_field(#[trigger] es[i].0) && !sensitive(f.mask, f.patterns, es[i].0) ==> cuts_ok(f, es[i].1, 0))
        },
        _ => cuts_ok(f, v, 1),
    }
}

/// What showing the registered results needs.
pub open spec fn registered_printable(c: ContextCallbackConfig, f: ValueFormat, m: Map<Seq<char>, JsonView>) -> bool {
    c.show_registered ==> forall|k: Seq<char>| #[trigger] m.contains_key(k) ==> registered_ok(c, f, m[k])
}

/// The lines of the registered results `ns`, in that order.
pub open spec fn all_registered_lines(c: ContextCallbackConfig, f: ValueFormat, ns: Seq<Seq<char>>, m: Map<Seq<char>, JsonView>) -> Seq<Seq<SpanView>>
    decreases ns.len(),
{
    if ns.len() == 0 {
        Seq::empty()
    } else {
        all_registered_lines(c, f, ns.drop_last(), m) + registered_result_lines(c, f, ns.last(), m[ns.last()])
    }
}

/// The registered section.
pub open spec fn registered_lines(c: ContextCallbackConfig, f: ValueFormat, ns: Seq<Seq<char>>, m: Map<Seq<char>, JsonView>) -> Seq<Seq<SpanView>> {
    if !c.show_registered || (ns.len() == 0 && !c.show_empty) {
        Seq::empty()
    } else if ns.len() == 0 {
        seq![Seq::<SpanView>::empty(), section_line("Registered"@), note_line("(none)"@)]
    } else {
        seq![Seq::<SpanView>::empty(), section_line("Registered"@)] + all_registered_lines(c, f, ns, m)
    }
}

/// The first entry named `key`, if any.
pub(crate) fn find_entry<'a>(es: &'a Vec<(String, JsonValue)>, key: &str) -> (r: Option<&'a JsonValue>)
    ensures
        match r {
            Some(v) => obj_get(jview_entries(es@, es@.len() as int), key@) == Some(jview(*v)),
            None => obj_get(jview_entries(es@, es@.len() as int), key@) is None,
        },
{
    let ghost ev = jview_entries(es@, es@.len() as int);
    proof {
        lemma_jview_entries_len(es@, es@.len() as int);
    }
    let mut i: usize = 0;
    while i < es.len()
        invariant
            i <= es@.len(),
            ev == jview_entries(es@, es@.len() as int),
            ev.len() == es@.len(),
            forall|j: int| 0 <= j < i ==> ev[j].0 != key@,
        decreases es.len() - i,
    {
        proof {
            lemma_jview_entries_index(es@, es@.len() as int, i as int);
        }
        if str_eq(es[i].0.as_str(), key) {
            proof {
                assert(first_named(ev, key@, i as int));
                let c = choose|c: int| first_named(ev, key@, c);
                if c < i {
                } else if c > i {
                    assert(ev[i as int].0 == key@);
                }
                assert(c == i);
            }
            return Some(&es[i].1);
        }
        i = i + 1;
    }
    None
}

/// A `    label: ` line followed by `value`.
fn field(label: &str, value: Vec<Span>) -> (l: Vec<Span>)
    ensures
        line_view(l@) == field_line(label@, line_view(value@)),
{
    let mut l = Vec::new();
    push_span(&mut l, "    ", Style::plain());
    push_span(&mut l, label, Style::fg(Color::BrightBlack));
    push_span(&mut l, ": ", Style::plain());
    let ghost head = line_view(l@);
    let mut k: usize = 0;
    let mut value = value;
    let ghost vv = line_view(value@);
    let mut rest: Vec<Span> = Vec::new();
    while value.len() > 0
        invariant
            line_view(rest@) + line_view(value@) == vv,
        decreases value.len(),
    {
        let x = value.remove(0);
        let ghost xv = (x.text@, x.style);
        let ghost rb = line_view(rest@);
        rest.push(x);
        proof {
            assert(line_view(rest@) =~= rb.push(xv));
        }
    }
    let ghost rv = line_view(rest@);
    l.append(&mut rest);
    proof {
        assert(line_view(l@) =~= head + rv);
        assert(rv =~= vv);
        assert(line_view(l@) =~= field_line(label@, vv));
    }
    l
}

impl ContextCallback {
    /// The lines of the other fields of a registered result, in order.
    fn other_fields(&self, es: &Vec<(String, JsonValue)>) -> (out: Vec<Vec<Span>>)
        requires
            self.wf(),
            self.spec_config().max_depth < usize::MAX,
            forall|i: int| 0 <= i < es@.len() as int && !known_field(#[trigger] jview_entries(es@, es@.len() as int)[i].0)
                && !sensitive(self.format().mask, self.format().patterns, jview_entries(es@, es@.len() as int)[i].0)
                ==> cuts_ok(self.format(), jview_entries(es@, es@.len() as int)[i].1, 0),
        ensures
            lines_view(out@) == other_field_lines(self.format(), jview_entries(es@, es@.len() as int)),
    {
        let ghost f = self.format();
        let ghost ev = jview_entries(es@, es@.len() as int);
        proof {
            lemma_jview_entries_len(es@, es@.len() as int);
            assert(ev.subrange(0, 0) =~= Seq::<(Seq<char>, JsonView)>::empty());
        }
        let mut out: Vec<Vec<Span>> = Vec::new();
        let mut i: usize = 0;
        while i < es.len()
            invariant
                self.wf(),
                self.spec_config().max_depth < usize::MAX,
                f == self.format(),
                ev == jview_entries(es@, es@.len() as int),
                ev.len() == es@.len(),
                forall|j: int| 0 <= j < es@.len() as int && !known_field(#[trigger] ev[j].0) && !sensitive(f.mask, f.patterns, ev[j].0)
                    ==> cuts_ok(f, ev[j].1, 0),
                i <= es@.len(),
                lines_view(out@) == other_field_lines(f, ev.subrange(0, i as int)),
            decreases es.len() - i,
        {
            proof {
                lemma_jview_entries_index(es@, es@.len() as int, i as int);
                assert(ev.subrange(0, i + 1).drop_last() =~= ev.subrange(0, i as int));
                assert(ev.subrange(0, i + 1).last() == ev[i as int]);
            }
            let k = es[i].0.as_str();
            let known = str_eq(k, "changed") || str_eq(k, "failed") || str_eq(k, "skipped") || str_eq(k, "rc")
                || str_eq(k, "stdout") || str_eq(k, "stderr") || str_eq(k, "msg") || str_eq(k, "stdout_lines")
                || str_eq(k, "stderr_lines");
            if !known {
                proof {
                    assert(!known_field(ev[i as int].0));
                }
                let formatted = self.mask_value(k, &es[i].1);
                push_line(&mut out, field(k, single(formatted.as_str(), Style::plain())));
                proof {
                    assert(lines_view(out@) =~= other_field_lines(f, ev.subrange(0, i + 1)));
                }
            }
            i = i + 1;
        }
        proof {
            assert(ev.subrange(0, i as int) =~= ev);
        }
        out
    }

    /// The `changed` line of a registered result.
    fn changed_field(es: &Vec<(String, JsonValue)>) -> (out: Vec<Vec<Span>>)
        ensures
            lines_view(out@) == changed_part(jview_entries(es@, es@.len() as int)),
    {
        let mut out: Vec<Vec<Span>> = Vec::new();
        match find_entry(es, "changed") {
            Some(x) => {
                let t = x.as_bool();
                let v = if t.is_some() && t.unwrap() {
                    single("true", Style::fg(Color::Yellow))
                } else {
                    single("false", Style::plain())
                };
                proof {
                    assert(is_true(jview(*x)) == (t.is_some() && t.unwrap()));
                }
                push_line(&mut out, field("changed", v));
            },
            None => {},
        }
        proof {
            assert(lines_view(out@) =~= changed_part(jview_entries(es@, es@.len() as int)));
        }
        out
    }

    /// The line of a status flag that is `true`.
    fn flag_field(es: &Vec<(String, JsonValue)>, key: &str, color: Color) -> (out: Vec<Vec<Span>>)
        ensures
            lines_view(out@) == flag_part(jview_entries(es@, es@.len() as int), key@, color),
    {
        let mut out: Vec<Vec<Span>> = Vec::new();
        match find_entry(es, key) {
            Some(x) => {
                let t = x.as_bool();
                proof {
                    assert(is_true(jview(*x)) == (t.is_some() && t.unwrap()));
                }
                if t.is_some() && t.unwrap() {
                    push_line(&mut out, field(key, single("true", Style::fg(color))));
                }
            },
            None => {},
        }
        proof {
            assert(lines_view(out@) =~= flag_part(jview_entries(es@, es@.len() as int), key@, color));
        }
        out
    }

    /// The line of a field shown as a value.
    fn value_field(&self, es: &Vec<(String, JsonValue)>, key: &str) -> (out: Vec<Vec<Span>>)
        requires
            self.wf(),
            self.spec_config().max_depth < usize::MAX,
            obj_get(jview_entries(es@, es@.len() as int), key@) matches Some(x) ==> cuts_ok(self.format(), x, 0),
        ensures
            lines_view(out@) == value_part(self.format(), jview_entries(es@, es@.len() as int), key@),
    {
        let mut out: Vec<Vec<Span>> = Vec::new();
        match find_entry(es, key) {
            Some(x) => {
                let text = self.format_value(x, 0);
                push_line(&mut out, field(key, single(text.as_str(), Style::plain())));
            },
            None => {},
        }
        proof {
            assert(lines_view(out@) =~= value_part(self.format(), jview_entries(es@, es@.len() as int), key@));
        }
        out
    }

    /// The `stdout` line of a registered result.
    fn stdout_field(es: &Vec<(String, JsonValue)>) -> (out: Vec<Vec<Span>>)
        requires
            obj_get(jview_entries(es@, es@.len() as int), "stdout"@) matches Some(JsonView::Str(t)) ==> ((utf8_len(t) as usize) > 100 ==> is_boundary(t, 100)),
        ensures
            lines_view(out@) == stdout_part(jview_entries(es@, es@.len() as int)),
    {
        let mut out: Vec<Vec<Span>> = Vec::new();
        match find_entry(es, "stdout") {
            Some(x) => {
                match x {
                    JsonValue::String(t) => {
                        if !t.as_str().is_empty() {
                            let mut shown = String::new();
                            push_str(&mut shown, "\"");
                            if byte_len(t.as_str()) > 100 {
                                let cut = byte_prefix_of(t.as_str(), 100);
                                push_str(&mut shown, cut.as_str());
                                push_str(&mut shown, "...");
                            } else {
                                push_str(&mut shown, t.as_str());
                            }
                            push_str(&mut shown, "\"");
                            proof {
                                assert(shown@ =~= "\""@ + stdout_text(t@) + "\""@);
                            }
                            push_line(&mut out, field("stdout", single(shown.as_str(), Style::plain())));
                        }
                    },
                    _ => {},
                }
            },
            None => {},
        }
        proof {
            assert(lines_view(out@) =~= stdout_part(jview_entries(es@, es@.len() as int)));
        }
        out
    }

    /// The lines of one registered result: its status fields, `rc`,
    /// `stdout` (cut to 100 bytes), `msg`, and from Verbose its other
    /// fields.
    fn registered_result(&self, name: &str, value: &JsonValue) -> (out: Vec<Vec<Span>>)
        requires
            self.wf(),
            self.spec_config().max_depth < usize::MAX,
            registered_ok(self.spec_config(), self.format(), jview(*value)),
        ensures
            lines_view(out@) == registered_result_lines(self.spec_config(), self.format(), name@, jview(*value)),
    {
        let ghost c = self.spec_config();
        let ghost f = self.format();
        let mut out: Vec<Vec<Span>> = Vec::new();
        let mut h: Vec<Span> = Vec::new();
        push_span(&mut h, "  ", Style::plain());
        push_span(&mut h, name, Style::bold(Color::Cyan));
        push_span(&mut h, ":", Style::plain());
        proof {
            assert(line_view(h@) =~= registered_head(name@));
        }
        push_line(&mut out, h);
        match value {
            JsonValue::Object(es) => {
                let ghost ev = jview_entries(es@, es@.len() as int);
                proof {
                    assert(jview(*value) == JsonView::Object(ev));
                    lemma_jview_entries_len(es@, es@.len() as int);
                }
                append_lines(&mut out, Self::changed_field(es));
                append_lines(&mut out, Self::flag_field(es, "failed", Color::Red));
                append_lines(&mut out, Self::flag_field(es, "skipped", Color::Cyan));
                append_lines(&mut out, self.value_field(es, "rc"));
                append_lines(&mut out, Self::stdout_field(es));
                append_lines(&mut out, self.value_field(es, "msg"));
                let ghost s6 = lines_view(out@);
                if self.config.verbosity.level() >= 2 {
                    let others = self.other_fields(es);
                    append_lines(&mut out, others);
                } else {
                    proof {
                        assert(lines_view(out@) =~= s6 + Seq::<Seq<SpanView>>::empty());
                    }
                }
            },
            _ => {
                proof {
                    assert(!(jview(*value) is Object));
                }
                let text = self.format_value(value, 1);
                let mut t = String::new();
                push_str(&mut t, "    ");
                push_str(&mut t, text.as_str());
                push_line(&mut out, single(t.as_str(), Style::plain()));
            },
        }
        proof {
            assert(lines_view(out@) =~= registered_result_lines(c, f, name@, jview(*value)));
        }
        out
    }
}


impl ContextCallback {
    /// The registered section: each registered result in insertion order.
    pub fn print_registered(&self, reg: &HostTable<JsonValue>) -> (out: Vec<Vec<Span>>)
        requires
            self.wf(),
            reg.wf(),
            self.spec_config().max_depth < usize::MAX,
            registered_printable(self.spec_config(), self.format(), json_map(reg@)),
        ensures
            lines_view(out@) == registered_lines(self.spec_config(), self.format(), reg.names(), json_map(reg@)),
    {
        let ghost c = self.spec_config();
        let ghost f = self.format();
        let ghost m = json_map(reg@);
        let ghost ns = reg.names();
        let mut out: Vec<Vec<Span>> = Vec::new();
        proof {
            reg.lemma_view();
        }
        let n = reg.len();
        if !self.config.show_registered || (n == 0 && !self.config.show_empty) {
            proof {
                assert(lines_view(out@) =~= Seq::<Seq<SpanView>>::empty());
            }
            return out;
        }
        push_line(&mut out, blank());
        push_line(&mut out, section("Registered"));
        if n == 0 {
            push_line(&mut out, note("(none)"));
            proof {
                assert(lines_view(out@) =~= seq![Seq::<SpanView>::empty(), section_line("Registered"@), note_line("(none)"@)]);
            }
            return out;
        }
        let ghost head = lines_view(out@);
        proof {
            assert(ns.subrange(0, 0) =~= Seq::<Seq<char>>::empty());
            assert(lines_view(out@) =~= head + all_registered_lines(c, f, ns.subrange(0, 0), m));
        }
        let mut i: usize = 0;
        while i < n
            invariant
                self.wf(),
                reg.wf(),
                self.spec_config().max_depth < usize::MAX,
                c == self.spec_config(),
                f == self.format(),
                m == json_map(reg@),
                ns == reg.names(),
                n == ns.len(),
                c.show_registered,
                registered_printable(c, f, m),
                i <= n,
                lines_view(out@) == head + all_registered_lines(c, f, ns.subrange(0, i as int), m),
            decreases n - i,
        {
            let (name, value) = reg.entry_ref(i);
            proof {
                assert(ns.subrange(0, i + 1).drop_last() =~= ns.subrange(0, i as int));
                assert(ns.subrange(0, i + 1).last() == name@);
                assert(m.contains_key(name@));
                assert(m[name@] == jview(*value));
                assert(registered_ok(c, f, m[name@]));
            }
            let ghost before = lines_view(out@);
            append_lines(&mut out, self.registered_result(name.as_str(), value));
            proof {
                assert(lines_view(out@) =~= head + all_registered_lines(c, f, ns.subrange(0, i + 1), m));
            }
            i = i + 1;
        }
        proof {
            assert(ns.subrange(0, i as int) =~= ns);
        }
        out
    }
}


/// The task header: `TASK [name] ***...` padded with stars to 70 bytes.
pub open spec fn task_header_line(name: Seq<char>) -> Seq<SpanView> {
    seq![
        ("TASK"@, bold_style(Color::Green)),
        (" ["@, plain_style()),
        (name, bold_style(Color::BrightWhite)),
        ("] "@, plain_style()),
        (repeat_char('*', sat_sub(70, (utf8_len(name) as usize) + 8)), plain_style()),
    ]
}

/// The host line: `HOST: name`.
pub open spec fn host_line(host: Seq<char>) -> Seq<SpanView> {
    seq![("HOST"@, color_style(Color::BrightBlack)), (": "@, plain_style()), (host, color_style(Color::BrightWhite))]
}

/// The style of a host in the recap: red when something failed, yellow
/// when something changed, green otherwise.
pub open spec fn recap_host_style(s: HostStats) -> Style {
    if s.failed > 0 {
        bold_style(Color::Red)
    } else if s.changed > 0 {
        color_style(Color::Yellow)
    } else {
        color_style(Color::Green)
    }
}

/// A recap line: `RECAP: host ok=.. changed=.. failed=.. skipped=..`.
pub open spec fn recap_line(host: Seq<char>, s: HostStats) -> Seq<SpanView> {
    seq![
        ("RECAP"@, color_style(Color::BrightBlack)),
        (": "@, plain_style()),
        (host, recap_host_style(s)),
        (" ok="@, plain_style()),
        (dec(s.ok as nat), color_style(Color::Green)),
        (" changed="@, plain_style()),
        (dec(s.changed as nat), color_style(Color::Yellow)),
        (" failed="@, plain_style()),
        (dec(s.failed as nat), color_style(Color::Red)),
        (" skipped="@, plain_style()),
        (dec(s.skipped as nat), color_style(Color::Cyan)),
    ]
}

/// A host's recap line reads `RECAP: host ok=N changed=N failed=N
/// skipped=N`, each label followed by the host's own count of that kind.
pub proof fn lemma_recap_line_text(host: Seq<char>, s: HostStats)
    ensures
        text_of(recap_line(host, s)) == "RECAP"@ + ": "@ + host + " ok="@ + dec(s.ok as nat) + " changed="@ + dec(s.changed as nat) + " failed="@
            + dec(s.failed as nat) + " skipped="@ + dec(s.skipped as nat),
{
    reveal_with_fuel(text_of, 13);
    assert(text_of(recap_line(host, s)) =~= "RECAP"@ + ": "@ + host + " ok="@ + dec(s.ok as nat) + " changed="@ + dec(s.changed as nat) + " failed="@
            + dec(s.failed as nat) + " skipped="@ + dec(s.skipped as nat));
}

/// The recap lines of the hosts `hs`, in that order.
pub open spec fn recap_lines(hs: Seq<Seq<char>>, m: Map<Seq<char>, HostStats>) -> Seq<Seq<SpanView>> {
    Seq::new(hs.len(), |i: int| recap_line(hs[i], m[hs[i]]))
}

/// The line of a finished task.
pub open spec fn result_line(host: Seq<char>, task: Seq<char>, message: Seq<char>, o: TaskOutcome) -> Seq<SpanView> {
    match o {
        TaskOutcome::Skipped => seq![("SKIPPED"@, color_style(Color::Cyan)), (": "@, plain_style()), (host, color_style(Color::BrightWhite)), (" | "@, plain_style()), (message, color_style(Color::BrightBlack))],
        TaskOutcome::Failed => seq![("FAILED"@, bold_style(Color::Red)), (": "@, plain_style()), (host, color_style(Color::BrightWhite)), (" | "@, plain_style()), (task, color_style(Color::Yellow)), (" | "@ + message, plain_style())],
        TaskOutcome::Changed => seq![("CHANGED"@, color_style(Color::Yellow)), (": "@, plain_style()), (host, color_style(Color::BrightWhite)), (" | "@, plain_style()), (message, color_style(Color::BrightBlack))],
        TaskOutcome::Unchanged => seq![("OK"@, color_style(Color::Green)), (": "@, plain_style()), (host, color_style(Color::BrightWhite)), (" | "@, plain_style()), (message, color_style(Color::BrightBlack))],
    }
}

/// A finished task's line starts with its status: `SKIPPED` when skipped,
/// else `FAILED` (with the task named) when it did not succeed, else
/// `CHANGED` or `OK`; then the host.
pub proof fn lemma_result_line_status(host: Seq<char>, task: Seq<char>, message: Seq<char>, r: crate::types::ModuleResult)
    ensures
        r.skipped ==> result_line(host, task, message, crate::types::outcome_of(r))[0].0 == "SKIPPED"@,
        !r.skipped && !r.success ==> result_line(host, task, message, crate::types::outcome_of(r))[0].0 == "FAILED"@
            && result_line(host, task, message, crate::types::outcome_of(r))[4].0 == task,
        !r.skipped && r.success && r.changed ==> result_line(host, task, message, crate::types::outcome_of(r))[0].0
            == "CHANGED"@,
        !r.skipped && r.success && !r.changed ==> result_line(host, task, message, crate::types::outcome_of(r))[0].0
            == "OK"@,
        result_line(host, task, message, crate::types::outcome_of(r))[2].0 == host,
{
}

/// Whether a context holds nothing.
pub open spec fn context_empty(ctx: TaskContext) -> bool {
    ctx.variables@.dom().len() == 0 && ctx.facts@.dom().len() == 0 && ctx.registered@.dom().len() == 0
}

/// The lines of a host's context block.
pub open spec fn context_block(c: ContextCallbackConfig, f: ValueFormat, ctx: TaskContext) -> Seq<Seq<SpanView>> {
    seq![Seq::<SpanView>::empty(), seq![("--- CONTEXT ---"@, bold_style(Color::BrightBlue))]]
        + variables_lines(c, f, json_map(ctx.variables@)) + facts_lines(c, f, ctx.facts.names(), json_map(ctx.facts@))
        + registered_lines(c, f, ctx.registered.names(), json_map(ctx.registered@))
        + seq![seq![("---------------"@, color_style(Color::BrightBlue))], Seq::<SpanView>::empty()]
}

/// A context can be shown.
pub open spec fn context_printable(c: ContextCallbackConfig, f: ValueFormat, ctx: TaskContext) -> bool {
    &&& vars_printable(c, f, json_map(ctx.variables@))
    &&& facts_printable(c, f, ctx.facts.names(), json_map(ctx.facts@))
    &&& registered_printable(c, f, json_map(ctx.registered@))
}

impl ContextCallback {
    /// The task header: `TASK [name]` and stars up to 70 bytes.
    pub fn format_task_header(task_name: &str) -> (l: Vec<Span>)
        ensures
            line_view(l@) == task_header_line(task_name@),
    {
        let n = byte_len(task_name);
        let pad: usize = if n >= 62 { 0 } else { 62 - n };
        let mut l = Vec::new();
        push_span(&mut l, "TASK", Style::bold(Color::Green));
        push_span(&mut l, " [", Style::plain());
        push_span(&mut l, task_name, Style::bold(Color::BrightWhite));
        push_span(&mut l, "] ", Style::plain());
        push_owned(&mut l, repeat_string('*', pad), Style::plain());
        proof {
            assert(line_view(l@) =~= task_header_line(task_name@));
        }
        l
    }

    /// The host line.
    pub fn format_host(host: &str) -> (l: Vec<Span>)
        ensures
            line_view(l@) == host_line(host@),
    {
        let mut l = Vec::new();
        push_span(&mut l, "HOST", Style::fg(Color::BrightBlack));
        push_span(&mut l, ": ", Style::plain());
        push_span(&mut l, host, Style::fg(Color::BrightWhite));
        proof {
            assert(line_view(l@) =~= host_line(host@));
        }
        l
    }

    /// A host's recap line.
    pub fn format_recap_line(host: &str, stats: &HostStats) -> (l: Vec<Span>)
        ensures
            line_view(l@) == recap_line(host@, *stats),
    {
        let host_style = if stats.failed > 0 {
            Style::bold(Color::Red)
        } else if stats.changed > 0 {
            Style::fg(Color::Yellow)
        } else {
            Style::fg(Color::Green)
        };
        let mut l = Vec::new();
        push_span(&mut l, "RECAP", Style::fg(Color::BrightBlack));
        push_span(&mut l, ": ", Style::plain());
        push_span(&mut l, host, host_style);
        push_span(&mut l, " ok=", Style::plain());
        push_owned(&mut l, crate::text::dec_string(stats.ok as u64), Style::fg(Color::Green));
        push_span(&mut l, " changed=", Style::plain());
        push_owned(&mut l, crate::text::dec_string(stats.changed as u64), Style::fg(Color::Yellow));
        push_span(&mut l, " failed=", Style::plain());
        push_owned(&mut l, crate::text::dec_string(stats.failed as u64), Style::fg(Color::Red));
        push_span(&mut l, " skipped=", Style::plain());
        push_owned(&mut l, crate::text::dec_string(stats.skipped as u64), Style::fg(Color::Cyan));
        proof {
            assert(line_view(l@) =~= recap_line(host@, *stats));
        }
        l
    }

    /// The counts of `host`, if it has any.
    pub fn host_stats(&self, host: &str) -> (r: Option<HostStats>)
        requires
            self.wf(),
        ensures
            r == if self.stats().contains_key(host@) {
                Some(self.stats()[host@])
            } else {
                None::<HostStats>
            },
    {
        self.host_stats.get(host)
    }

    /// Whether the context of `host` holds a fact named `key`.
    pub fn has_fact(&self, host: &str, key: &str) -> (b: bool)
        requires
            self.wf(),
        ensures
            b == (self.contexts().contains_key(host@) && self.contexts()[host@].facts@.contains_key(key@)),
    {
        match self.host_contexts.get_ref(host) {
            Some(ctx) => ctx.facts.contains(key),
            None => false,
        }
    }

    /// Whether the context of `host` holds a registered result named `key`.
    pub fn has_registered(&self, host: &str, key: &str) -> (b: bool)
        requires
            self.wf(),
        ensures
            b == (self.contexts().contains_key(host@) && self.contexts()[host@].registered@.contains_key(key@)),
    {
        match self.host_contexts.get_ref(host) {
            Some(ctx) => ctx.registered.contains(key),
            None => false,
        }
    }

    /// A playbook starts: earlier counts and contexts are dropped and its
    /// header is shown.
    pub fn on_playbook_start(&mut self, name: &str) -> (out: Vec<Vec<Span>>)
        requires
            old(self).wf(),
        ensures
            final(self).wf(),
            final(self).stats() == Map::<Seq<char>, HostStats>::empty(),
            final(self).contexts() == Map::<Seq<char>, TaskContext>::empty(),
            final(self).spec_started(),
            final(self).spec_config() == old(self).spec_config(),
            lines_view(out@) == seq![
                Seq::<SpanView>::empty(),
                seq![("PLAYBOOK"@, bold_style(Color::Green)), (" ["@, plain_style()), (name@, bold_style(Color::BrightWhite)), ("]"@, plain_style())],
            ],
    {
        self.started = true;
        self.playbook_name = Some(name.to_owned());
        self.host_stats.clear();
        self.host_contexts.clear();
        let mut out: Vec<Vec<Span>> = Vec::new();
        push_line(&mut out, blank());
        let mut l = Vec::new();
        push_span(&mut l, "PLAYBOOK", Style::bold(Color::Green));
        push_span(&mut l, " [", Style::plain());
        push_span(&mut l, name, Style::bold(Color::BrightWhite));
        push_span(&mut l, "]", Style::plain());
        proof {
            assert(line_view(l@) =~= seq![("PLAYBOOK"@, bold_style(Color::Green)), (" ["@, plain_style()), (name@, bold_style(Color::BrightWhite)), ("]"@, plain_style())]);
        }
        push_line(&mut out, l);
        proof {
            assert(lines_view(out@) =~= seq![
                Seq::<SpanView>::empty(),
                seq![("PLAYBOOK"@, bold_style(Color::Green)), (" ["@, plain_style()), (name@, bold_style(Color::BrightWhite)), ("]"@, plain_style())],
            ]);
        }
        out
    }

    /// A play starts: its header with the host count is shown, and its
    /// hosts get empty counts and contexts where they have none.
    pub fn on_play_start(&mut self, name: &str, hosts: &Vec<String>) -> (out: Vec<Vec<Span>>)
        requires
            old(self).wf(),
        ensures
            final(self).wf(),
            final(self).spec_config() == old(self).spec_config(),
            final(self).spec_started() == old(self).spec_started(),
            forall|k: Seq<char>| #[trigger] final(self).stats().contains_key(k) <==> (old(self).stats().contains_key(k)
                || views(hosts@).contains(k)),
            forall|k: Seq<char>| #[trigger] final(self).stats().contains_key(k) ==> final(self).stats()[k] == stats_of(
                old(self).stats(),
                k,
            ),
            forall|k: Seq<char>| #[trigger] final(self).contexts().contains_key(k) <==> (old(self).contexts().contains_key(k)
                || views(hosts@).contains(k)),
            forall|k: Seq<char>| #[trigger] old(self).contexts().contains_key(k) ==> final(self).contexts()[k] == old(self).contexts()[k],
            forall|k: Seq<char>| #[trigger] final(self).contexts().contains_key(k) && !old(self).contexts().contains_key(k)
                ==> context_empty(final(self).contexts()[k]),
            lines_view(out@) == seq![
                Seq::<SpanView>::empty(),
                seq![
                    ("PLAY"@, bold_style(Color::Cyan)),
                    (" ["@, plain_style()),
                    (name@, bold_style(Color::BrightWhite)),
                    ("] "@, plain_style()),
                    ("("@ + dec(hosts@.len()) + " hosts)"@, color_style(Color::BrightBlack)),
                ],
            ],
    {
        let mut out: Vec<Vec<Span>> = Vec::new();
        push_line(&mut out, blank());
        let mut l = Vec::new();
        push_span(&mut l, "PLAY", Style::bold(Color::Cyan));
        push_span(&mut l, " [", Style::plain());
        push_span(&mut l, name, Style::bold(Color::BrightWhite));
        push_span(&mut l, "] ", Style::plain());
        let mut t = String::new();
        push_str(&mut t, "(");
        push_dec(&mut t, hosts.len() as u64);
        push_str(&mut t, " hosts)");
        push_owned(&mut l, t, Style::fg(Color::BrightBlack));
        proof {
            assert(line_view(l@) =~= seq![
                    ("PLAY"@, bold_style(Color::Cyan)),
                    (" ["@, plain_style()),
                    (name@, bold_style(Color::BrightWhite)),
                    ("] "@, plain_style()),
                    ("("@ + dec(hosts@.len()) + " hosts)"@, color_style(Color::BrightBlack)),
                ]);
        }
        push_line(&mut out, l);
        let ghost lines0 = lines_view(out@);
        let mut i: usize = 0;
        while i < hosts.len()
            invariant
                i <= hosts.len(),
                self.wf(),
                forall|k: Seq<char>| #[trigger] self.stats().contains_key(k) <==> (old(self).stats().contains_key(k)
                    || views(hosts@.subrange(0, i as int)).contains(k)),
                forall|k: Seq<char>| #[trigger] self.stats().contains_key(k) ==> self.stats()[k] == stats_of(
                    old(self).stats(),
                    k,
                ),
                forall|k: Seq<char>| #[trigger] self.contexts().contains_key(k) <==> (old(self).contexts().contains_key(k)
                    || views(hosts@.subrange(0, i as int)).contains(k)),
                forall|k: Seq<char>| #[trigger] old(self).contexts().contains_key(k) ==> self.contexts()[k] == old(self).contexts()[k],
                forall|k: Seq<char>| #[trigger] self.contexts().contains_key(k) && !old(self).contexts().contains_key(k)
                    ==> context_empty(self.contexts()[k]),
                self.config == old(self).config,
                self.started == old(self).started,
                lines_view(out@) == lines0,
            decreases hosts.len() - i,
        {
            let ghost before = self.stats();
            let ghost cbefore = self.contexts();
            self.host_stats.ensure(hosts[i].as_str(), HostStats { ok: 0, changed: 0, failed: 0, skipped: 0 });
            let ctx = TaskContext::new();
            proof {
                ctx.variables.lemma_view();
                ctx.facts.lemma_view();
                ctx.registered.lemma_view();
                assert(ctx.variables@.dom() =~= Set::<Seq<char>>::empty());
                assert(ctx.facts@.dom() =~= Set::<Seq<char>>::empty());
                assert(ctx.registered@.dom() =~= Set::<Seq<char>>::empty());
            }
            self.host_contexts.ensure(hosts[i].as_str(), ctx);
            proof {
                let k0 = hosts@[i as int]@;
                assert forall|k: Seq<char>| #[trigger] self.stats().contains_key(k) implies self.stats()[k] == stats_of(
                    old(self).stats(),
                    k,
                ) by {
                    if before.contains_key(k) {
                        assert(self.stats()[k] == before[k]);
                    } else {
                        assert(k == k0);
                        assert(!old(self).stats().contains_key(k));
                    }
                }
                let prev = views(hosts@.subrange(0, i as int));
                let cur = views(hosts@.subrange(0, i + 1));
                assert(cur =~= prev.push(hosts@[i as int]@));
                assert forall|k: Seq<char>| cur.contains(k) <==> (prev.contains(k) || k == hosts@[i as int]@) by {
                    if cur.contains(k) {
                        let j = choose|j: int| 0 <= j < cur.len() && cur[j] == k;
                        if j < prev.len() {
                            assert(prev[j] == k);
                        }
                    }
                    if prev.contains(k) {
                        let j = choose|j: int| 0 <= j < prev.len() && prev[j] == k;
                        assert(cur[j] == k);
                    }
                    if k == hosts@[i as int]@ {
                        assert(cur[i as int] == k);
                    }
                }
                assert forall|k: Seq<char>| #[trigger] self.host_contexts@.contains_key(k) implies self.host_contexts@[k].wf() by {
                    if cbefore.contains_key(k) {
                    } else {
                        assert(k == k0);
                    }
                }
            }
            i = i + 1;
        }
        proof {
            assert(hosts@.subrange(0, i as int) =~= hosts@);
            assert(lines_view(out@) =~= seq![
                Seq::<SpanView>::empty(),
                seq![
                    ("PLAY"@, bold_style(Color::Cyan)),
                    (" ["@, plain_style()),
                    (name@, bold_style(Color::BrightWhite)),
                    ("] "@, plain_style()),
                    ("("@ + dec(hosts@.len()) + " hosts)"@, color_style(Color::BrightBlack)),
                ],
            ]);
        }
        out
    }

    /// A play ends; nothing is shown.
    pub fn on_play_end(&self, name: &str, success: bool) -> (out: Vec<Vec<Span>>)
        ensures
            out@.len() == 0,
    {
        Vec::new()
    }

    /// Whether the context of `host`, if it has one, can be shown.
    pub open spec fn host_printable(&self, host: Seq<char>) -> bool {
        self.contexts().contains_key(host) ==> context_printable(self.spec_config(), self.format(), self.contexts()[host])
    }

    /// What a task starting on `host` needs: from Normal, where the host's
    /// context is shown, every value shown can be cut between characters,
    /// and the depth limit leaves room for one level more.
    pub open spec fn task_start_ok(&self, host: Seq<char>) -> bool {
        rank(self.spec_config().verbosity) >= 1 ==> (self.spec_config().max_depth < usize::MAX
            && self.host_printable(host))
    }

    /// Whether a task starting on `host` can be shown (see `task_start_ok`).
    pub fn can_start_task(&self, host: &str) -> (b: bool)
        requires
            self.wf(),
        ensures
            b == self.task_start_ok(host@),
    {
        if self.config.verbosity.level() < 1 {
            return true;
        }
        if self.config.max_depth == usize::MAX {
            return false;
        }
        match self.host_contexts.get_ref(host) {
            Some(ctx) => {
                let vars_ok = self.can_show_variables(&ctx.variables);
                let facts_ok = self.can_show_facts(&ctx.facts);
                let reg_ok = self.can_show_registered(&ctx.registered);
                vars_ok && facts_ok && reg_ok
            },
            None => true,
        }
    }

    /// The context block of a host.
    fn context_lines(&self, ctx: &TaskContext) -> (out: Vec<Vec<Span>>)
        requires
            self.wf(),
            ctx.wf(),
            self.spec_config().max_depth < usize::MAX,
            context_printable(self.spec_config(), self.format(), *ctx),
        ensures
            lines_view(out@) == context_block(self.spec_config(), self.format(), *ctx),
    {
        let mut out: Vec<Vec<Span>> = Vec::new();
        push_line(&mut out, blank());
        push_line(&mut out, single("--- CONTEXT ---", Style::bold(Color::BrightBlue)));
        append_lines(&mut out, self.print_variables(&ctx.variables));
        append_lines(&mut out, self.print_facts(&ctx.facts));
        append_lines(&mut out, self.print_registered(&ctx.registered));
        push_line(&mut out, single("---------------", Style::fg(Color::BrightBlue)));
        push_line(&mut out, blank());
        proof {
            assert(lines_view(out@) =~= context_block(self.spec_config(), self.format(), *ctx));
        }
        out
    }

    /// A task starts on a host: its header and host line are shown, and from
    /// Normal the host's context when it holds anything.
    pub fn on_task_start(&mut self, name: &str, host: &str) -> (out: Vec<Vec<Span>>)
        requires
            old(self).wf(),
            old(self).task_start_ok(host@),
        ensures
            final(self).wf(),
            final(self).spec_config() == old(self).spec_config(),
            final(self).stats() == old(self).stats(),
            final(self).contexts() == old(self).contexts(),
            final(self).spec_started() == old(self).spec_started(),
            lines_view(out@) == seq![Seq::<SpanView>::empty(), task_header_line(name@), host_line(host@)] + if rank(
                old(self).spec_config().verbosity,
            ) >= 1 && old(self).contexts().contains_key(host@) && !context_empty(old(self).contexts()[host@]) {
                context_block(old(self).spec_config(), old(self).format(), old(self).contexts()[host@])
            } else {
                Seq::empty()
            },
    {
        self.current_task = Some(name.to_owned());
        let mut out: Vec<Vec<Span>> = Vec::new();
        push_line(&mut out, blank());
        push_line(&mut out, Self::format_task_header(name));
        push_line(&mut out, Self::format_host(host));
        let ghost head = lines_view(out@);
        if self.config.verbosity.level() >= 1 {
            match self.host_contexts.get_ref(host) {
                Some(ctx) => {
                    proof {
                        ctx.variables.lemma_view();
                        ctx.facts.lemma_view();
                        ctx.registered.lemma_view();
                    }
                    if ctx.variables.len() > 0 || ctx.facts.len() > 0 || ctx.registered.len() > 0 {
                        append_lines(&mut out, self.context_lines(ctx));
                    } else {
                        proof {
                            assert(lines_view(out@) =~= head + Seq::<Seq<SpanView>>::empty());
                        }
                    }
                },
                None => {
                    proof {
                        assert(lines_view(out@) =~= head + Seq::<Seq<SpanView>>::empty());
                    }
                },
            }
        } else {
            proof {
                assert(lines_view(out@) =~= head + Seq::<Seq<SpanView>>::empty());
            }
        }
        out
    }
}


/// The variables of a host's context before a change (none for a new host).
pub open spec fn vars_before(m: Map<Seq<char>, TaskContext>, host: Seq<char>) -> Map<Seq<char>, JsonValue> {
    if m.contains_key(host) {
        m[host].variables@
    } else {
        Map::empty()
    }
}

/// The facts of a host's context before a change.
pub open spec fn facts_before(m: Map<Seq<char>, TaskContext>, host: Seq<char>) -> Map<Seq<char>, JsonValue> {
    if m.contains_key(host) {
        m[host].facts@
    } else {
        Map::empty()
    }
}

/// The registered results of a host's context before a change.
pub open spec fn registered_before(m: Map<Seq<char>, TaskContext>, host: Seq<char>) -> Map<Seq<char>, JsonValue> {
    if m.contains_key(host) {
        m[host].registered@
    } else {
        Map::empty()
    }
}

/// The last line of a playbook: its name, how it ended and how long it took.
pub open spec fn finished_line(name: Seq<char>, success: bool, secs: Seq<char>) -> Seq<SpanView> {
    seq![
        (name, bold_style(Color::BrightWhite)),
        (" "@, plain_style()),
        if success { ("completed"@, color_style(Color::Green)) } else { ("failed"@, bold_style(Color::Red)) },
        (" in "@ + secs + "s"@, plain_style()),
    ]
}

impl ContextCallback {
    /// Makes sure `host` has a context.
    fn ensure_context(&mut self, host: &str)
        requires
            old(self).wf(),
        ensures
            final(self).wf(),
            final(self).spec_config() == old(self).spec_config(),
            final(self).spec_started() == old(self).spec_started(),
            final(self).stats() == old(self).stats(),
            final(self).contexts().contains_key(host@),
            final(self).contexts().dom() == old(self).contexts().dom().insert(host@),
            forall|k: Seq<char>| #[trigger] old(self).contexts().contains_key(k) ==> final(self).contexts()[k] == old(self).contexts()[k],
            final(self).contexts()[host@].variables@ == vars_before(old(self).contexts(), host@),
            final(self).contexts()[host@].facts@ == facts_before(old(self).contexts(), host@),
            final(self).contexts()[host@].registered@ == registered_before(old(self).contexts(), host@),
    {
        let ctx = TaskContext::new();
        self.host_contexts.ensure(host, ctx);
        proof {
            assert(self.contexts().dom() =~= old(self).contexts().dom().insert(host@));
        }
    }

    /// A task finished: it is counted for its host, its result line is
    /// shown, and data it returned is registered under the task's name in
    /// the host's context.
    pub fn on_task_complete(&mut self, result: &ExecutionResult) -> (out: Vec<Vec<Span>>)
        requires
            old(self).wf(),
        ensures
            final(self).wf(),
            final(self).spec_config() == old(self).spec_config(),
            final(self).spec_started() == old(self).spec_started(),
            final(self).stats() == old(self).stats().insert(
                result.host@,
                count_outcome(stats_of(old(self).stats(), result.host@), outcome_of(result.result)),
            ),
            lines_view(out@) == seq![result_line(result.host@, result.task_name@, result.result.message@, outcome_of(result.result))],
            result.result.data is None ==> final(self).contexts() == old(self).contexts(),
            result.result.data matches Some(d) ==> {
                &&& final(self).contexts().dom() == old(self).contexts().dom().insert(result.host@)
                &&& forall|k: Seq<char>| #[trigger] old(self).contexts().contains_key(k) && k != result.host@
                    ==> final(self).contexts()[k] == old(self).contexts()[k]
                &&& final(self).contexts()[result.host@].variables@ == vars_before(old(self).contexts(), result.host@)
                &&& final(self).contexts()[result.host@].facts@ == facts_before(old(self).contexts(), result.host@)
                &&& json_map(final(self).contexts()[result.host@].registered@) == json_map(
                    registered_before(old(self).contexts(), result.host@),
                ).insert(result.task_name@, jview(d))
            },
    {
        let host = result.host.as_str();
        let o = classify(&result.result);
        let cur = match self.host_stats.get(host) {
            Some(st) => st,
            None => HostStats { ok: 0, changed: 0, failed: 0, skipped: 0 },
        };
        let next = match o {
            TaskOutcome::Skipped => HostStats { skipped: inc(cur.skipped), ..cur },
            TaskOutcome::Failed => HostStats { failed: inc(cur.failed), ..cur },
            TaskOutcome::Changed => HostStats { changed: inc(cur.changed), ..cur },
            TaskOutcome::Unchanged => HostStats { ok: inc(cur.ok), ..cur },
        };
        self.host_stats.set(host, next);
        let mut l: Vec<Span> = Vec::new();
        match o {
            TaskOutcome::Skipped => {
                push_span(&mut l, "SKIPPED", Style::fg(Color::Cyan));
                push_span(&mut l, ": ", Style::plain());
                push_span(&mut l, host, Style::fg(Color::BrightWhite));
                push_span(&mut l, " | ", Style::plain());
                push_span(&mut l, result.result.message.as_str(), Style::fg(Color::BrightBlack));
            },
            TaskOutcome::Failed => {
                push_span(&mut l, "FAILED", Style::bold(Color::Red));
                push_span(&mut l, ": ", Style::plain());
                push_span(&mut l, host, Style::fg(Color::BrightWhite));
                push_span(&mut l, " | ", Style::plain());
                push_span(&mut l, result.task_name.as_str(), Style::fg(Color::Yellow));
                let mut t = String::new();
                push_str(&mut t, " | ");
                push_str(&mut t, result.result.message.as_str());
                push_owned(&mut l, t, Style::plain());
            },
            TaskOutcome::Changed => {
                push_span(&mut l, "CHANGED", Style::fg(Color::Yellow));
                push_span(&mut l, ": ", Style::plain());
                push_span(&mut l, host, Style::fg(Color::BrightWhite));
                push_span(&mut l, " | ", Style::plain());
                push_span(&mut l, result.result.message.as_str(), Style::fg(Color::BrightBlack));
            },
            TaskOutcome::Unchanged => {
                push_span(&mut l, "OK", Style::fg(Color::Green));
                push_span(&mut l, ": ", Style::plain());
                push_span(&mut l, host, Style::fg(Color::BrightWhite));
                push_span(&mut l, " | ", Style::plain());
                push_span(&mut l, result.result.message.as_str(), Style::fg(Color::BrightBlack));
            },
        }
        proof {
            assert(line_view(l@) =~= result_line(result.host@, result.task_name@, result.result.message@, outcome_of(result.result)));
        }
        let mut out: Vec<Vec<Span>> = Vec::new();
        push_line(&mut out, l);
        proof {
            assert(lines_view(out@) =~= seq![result_line(result.host@, result.task_name@, result.result.message@, outcome_of(result.result))]);
        }
        match &result.result.data {
            Some(d) => {
                let ghost mid = self.contexts();
                self.ensure_context(host);
                let ghost with_ctx = self.contexts();
                let v = copy_json(d);
                let mut ctx = self.host_contexts.remove(host).unwrap();
                ctx.registered.set(result.task_name.as_str(), v);
                proof {
                    assert(json_map(ctx.registered@) =~= json_map(registered_before(old(self).contexts(), host@)).insert(
                        result.task_name@,
                        jview(*d),
                    ));
                }
                self.host_contexts.set(host, ctx);
                proof {
                    assert(self.contexts().dom() =~= old(self).contexts().dom().insert(host@));
                    assert forall|k: Seq<char>| #[trigger] self.host_contexts@.contains_key(k) implies self.host_contexts@[k].wf() by {
                        if k != host@ {
                            assert(with_ctx.contains_key(k));
                        }
                    }
                }
            },
            None => {},
        }
        out
    }

    /// A handler was notified: shown from Verbose.
    pub fn on_handler_triggered(&self, name: &str) -> (out: Vec<Vec<Span>>)
        ensures
            lines_view(out@) == if rank(self.spec_config().verbosity) >= 2 {
                seq![seq![("HANDLER NOTIFIED"@, color_style(Color::Magenta)), (": "@, plain_style()), (name@, color_style(Color::BrightWhite))]]
            } else {
                Seq::<Seq<SpanView>>::empty()
            },
    {
        let mut out: Vec<Vec<Span>> = Vec::new();
        if self.config.verbosity.level() >= 2 {
            let mut l = Vec::new();
            push_span(&mut l, "HANDLER NOTIFIED", Style::fg(Color::Magenta));
            push_span(&mut l, ": ", Style::plain());
            push_span(&mut l, name, Style::fg(Color::BrightWhite));
            proof {
                assert(line_view(l@) =~= seq![("HANDLER NOTIFIED"@, color_style(Color::Magenta)), (": "@, plain_style()), (name@, color_style(Color::BrightWhite))]);
            }
            push_line(&mut out, l);
            proof {
                assert(lines_view(out@) =~= seq![seq![("HANDLER NOTIFIED"@, color_style(Color::Magenta)), (": "@, plain_style()), (name@, color_style(Color::BrightWhite))]]);
            }
        } else {
            proof {
                assert(lines_view(out@) =~= Seq::<Seq<SpanView>>::empty());
            }
        }
        out
    }

    /// Facts were gathered for a host: they are stored in its context, and
    /// from Verbose a line with their number is shown.
    pub fn on_facts_gathered(&mut self, host: &str, facts: &HostTable<JsonValue>) -> (out: Vec<Vec<Span>>)
        requires
            old(self).wf(),
            facts.wf(),
        ensures
            final(self).wf(),
            final(self).spec_config() == old(self).spec_config(),
            final(self).spec_started() == old(self).spec_started(),
            final(self).stats() == old(self).stats(),
            final(self).contexts().dom() == old(self).contexts().dom().insert(host@),
            forall|k: Seq<char>| #[trigger] old(self).contexts().contains_key(k) && k != host@
                ==> final(self).contexts()[k] == old(self).contexts()[k],
            final(self).contexts()[host@].variables@ == vars_before(old(self).contexts(), host@),
            final(self).contexts()[host@].registered@ == registered_before(old(self).contexts(), host@),
            json_map(final(self).contexts()[host@].facts@) == json_map(facts_before(old(self).contexts(), host@)).union_prefer_right(
                json_map(facts@),
            ),
            lines_view(out@) == if rank(old(self).spec_config().verbosity) >= 2 {
                seq![seq![
                    ("FACTS GATHERED"@, color_style(Color::BrightBlack)),
                    (": "@, plain_style()),
                    (host@, color_style(Color::BrightWhite)),
                    (" ("@ + dec(facts@.dom().len()) + " facts)"@, plain_style()),
                ]]
            } else {
                Seq::<Seq<SpanView>>::empty()
            },
    {
        self.ensure_context(host);
        let ghost with_ctx = self.contexts();
        let mut ctx = self.host_contexts.remove(host).unwrap();
        let ghost start = ctx.facts@;
        let ghost ns = facts.names();
        proof {
            facts.lemma_view();
        }
        let n = facts.len();
        let mut i: usize = 0;
        while i < n
            invariant
                facts.wf(),
                ctx.wf(),
                ns == facts.names(),
                n == ns.len(),
                i <= n,
                forall|k: Seq<char>| facts@.contains_key(k) <==> ns.contains(k),
                ctx.variables@ == vars_before(old(self).contexts(), host@),
                ctx.registered@ == registered_before(old(self).contexts(), host@),
                json_map(ctx.facts@) == json_map(start).union_prefer_right(
                    json_map(facts@).restrict(ns.subrange(0, i as int).to_set()),
                ),
            decreases n - i,
        {
            let (k, v) = facts.entry_ref(i);
            let c = copy_json(v);
            let ghost before = ctx.facts@;
            ctx.facts.set(k.as_str(), c);
            proof {
                assert(ns.subrange(0, i + 1) =~= ns.subrange(0, i as int).push(k@));
                ns.subrange(0, i as int).lemma_push_to_set_commute(k@);
                assert(ns.subrange(0, i + 1).to_set() =~= ns.subrange(0, i as int).to_set().insert(k@));
                assert(json_map(facts@)[k@] == jview(*v));
                let s1 = ns.subrange(0, i as int).to_set();
                let s2 = ns.subrange(0, i + 1).to_set();
                assert(json_map(ctx.facts@) =~= json_map(before).insert(k@, jview(c)));
                assert(json_map(start).union_prefer_right(json_map(facts@).restrict(s2)) =~= json_map(start).union_prefer_right(
                    json_map(facts@).restrict(s1),
                ).insert(k@, json_map(facts@)[k@]));
                assert(json_map(ctx.facts@) =~= json_map(start).union_prefer_right(
                    json_map(facts@).restrict(ns.subrange(0, i + 1).to_set()),
                ));
            }
            i = i + 1;
        }
        proof {
            assert(ns.subrange(0, i as int) =~= ns);
            assert(json_map(facts@).restrict(ns.to_set()) =~= json_map(facts@));
        }
        self.host_contexts.set(host, ctx);
        proof {
            assert(self.contexts().dom() =~= old(self).contexts().dom().insert(host@));
            assert forall|k: Seq<char>| #[trigger] self.host_contexts@.contains_key(k) implies self.host_contexts@[k].wf() by {
                if k != host@ {
                    assert(with_ctx.contains_key(k));
                }
            }
        }
        let mut out: Vec<Vec<Span>> = Vec::new();
        if self.config.verbosity.level() >= 2 {
            let mut l = Vec::new();
            push_span(&mut l, "FACTS GATHERED", Style::fg(Color::BrightBlack));
            push_span(&mut l, ": ", Style::plain());
            push_span(&mut l, host, Style::fg(Color::BrightWhite));
            let mut t = String::new();
            push_str(&mut t, " (");
            push_dec(&mut t, n as u64);
            push_str(&mut t, " facts)");
            push_owned(&mut l, t, Style::plain());
            proof {
                assert(n == facts@.dom().len());
                assert(line_view(l@) =~= seq![
                    ("FACTS GATHERED"@, color_style(Color::BrightBlack)),
                    (": "@, plain_style()),
                    (host@, color_style(Color::BrightWhite)),
                    (" ("@ + dec(facts@.dom().len()) + " facts)"@, plain_style()),
                ]);
            }
            push_line(&mut out, l);
            proof {
                assert(lines_view(out@) =~= seq![seq![
                    ("FACTS GATHERED"@, color_style(Color::BrightBlack)),
                    (": "@, plain_style()),
                    (host@, color_style(Color::BrightWhite)),
                    (" ("@ + dec(facts@.dom().len()) + " facts)"@, plain_style()),
                ]]);
            }
        } else {
            proof {
                assert(lines_view(out@) =~= Seq::<Seq<SpanView>>::empty());
            }
        }
        out
    }

    /// The playbook ended: a recap line for each host in name order, and,
    /// once a playbook started, its name, how it ended and `elapsed_secs`
    /// (the seconds it took, to two decimals).
    pub fn on_playbook_end(&self, name: &str, success: bool, elapsed_secs: &str) -> (out: Vec<Vec<Span>>)
        requires
            self.wf(),
        ensures
            lines_view(out@) == (if self.stats().dom().len() > 0 { seq![Seq::<SpanView>::empty()] } else { Seq::<Seq<SpanView>>::empty() })
                + recap_lines(sorted_keys(self.stats()), self.stats()) + if self.spec_started() {
                seq![Seq::<SpanView>::empty(), finished_line(name@, success, elapsed_secs@)]
            } else {
                Seq::<Seq<SpanView>>::empty()
            },
    {
        let ghost m = self.stats();
        let mut out: Vec<Vec<Span>> = Vec::new();
        proof {
            self.host_stats.lemma_view();
        }
        if self.host_stats.len() > 0 {
            push_line(&mut out, blank());
        }
        let hosts = self.host_stats.sorted_names();
        let ghost hs = views(hosts@);
        proof {
            lemma_sorted_keys(hs, m);
            assert(hs.subrange(0, 0) =~= Seq::<Seq<char>>::empty());
        }
        let ghost head = lines_view(out@);
        proof {
            assert(head =~= if m.dom().len() > 0 { seq![Seq::<SpanView>::empty()] } else { Seq::<Seq<SpanView>>::empty() });
            assert(lines_view(out@) =~= head + recap_lines(hs.subrange(0, 0), m));
        }
        let mut i: usize = 0;
        while i < hosts.len()
            invariant
                self.wf(),
                m == self.stats(),
                hs == views(hosts@),
                hs.len() == hosts@.len(),
                forall|k: Seq<char>| m.contains_key(k) <==> hs.contains(k),
                i <= hosts.len(),
                lines_view(out@) == head + recap_lines(hs.subrange(0, i as int), m),
            decreases hosts.len() - i,
        {
            let h = hosts[i].as_str();
            proof {
                assert(hs[i as int] == h@);
                assert(hs.contains(h@));
            }
            let st = self.host_stats.get(h).unwrap();
            push_line(&mut out, Self::format_recap_line(h, &st));
            proof {
                assert(recap_lines(hs.subrange(0, i + 1), m) =~= recap_lines(hs.subrange(0, i as int), m).push(recap_line(h@, m[h@])));
                assert(lines_view(out@) =~= head + recap_lines(hs.subrange(0, i + 1), m));
            }
            i = i + 1;
        }
        proof {
            assert(hs.subrange(0, i as int) =~= hs);
        }
        let ghost mid = lines_view(out@);
        if self.started {
            push_line(&mut out, blank());
            let mut l = Vec::new();
            push_span(&mut l, name, Style::bold(Color::BrightWhite));
            push_span(&mut l, " ", Style::plain());
            if success {
                push_span(&mut l, "completed", Style::fg(Color::Green));
            } else {
                push_span(&mut l, "failed", Style::bold(Color::Red));
            }
            let mut t = String::new();
            push_str(&mut t, " in ");
            push_str(&mut t, elapsed_secs);
            push_str(&mut t, "s");
            push_owned(&mut l, t, Style::plain());
            proof {
                assert(line_view(l@) =~= finished_line(name@, success, elapsed_secs@));
            }
            push_line(&mut out, l);
            proof {
                assert(lines_view(out@) =~= mid + seq![Seq::<SpanView>::empty(), finished_line(name@, success, elapsed_secs@)]);
            }
        } else {
            proof {
                assert(lines_view(out@) =~= mid + Seq::<Seq<SpanView>>::empty());
            }
        }
        out
    }
}

} // verus!
