//! Before/after diffs of changed files.
//!
//! The line diff itself is computed by the `similar` crate; this module
//! renders its hunks as unified-diff text or styled lines, counts changes,
//! and keeps the diff plugin's statistics.
use vstd::prelude::*;
use crate::style::{
    blank, color_style, bold_style, line_view, lines_view, plain_style, push_line, push_owned,
    push_span, single, Color, Span, SpanView, Style,
};
use crate::text::{chars_of, dec, dec_string, push_dec, push_str, str_eq, string_of_chars};

verus! {

// ---------------------------------------------------------------------------
// The diff as plain values
// ---------------------------------------------------------------------------

/// What a line of a diff does.
#[derive(Clone, Copy, Debug, PartialEq, Eq, Structural)]
pub enum ChangeKind {
    /// The line is only in the old text.
    Delete,
    /// The line is only in the new text.
    Insert,
    /// The line is in both.
    Equal,
}

/// One line of a diff hunk.
#[derive(Debug)]
pub struct DiffLine {
    /// What the line does.
    pub kind: ChangeKind,
    /// The line, with its newline if it had one.
    pub value: String,
}

/// A hunk of a unified diff.
#[derive(Debug)]
pub struct DiffHunk {
    /// The `@@ -a,b +c,d @@` header.
    pub header: String,
    /// The lines of the hunk.
    pub changes: Vec<DiffLine>,
}

/// A diff line as plain values.
pub type ChangeView = (ChangeKind, Seq<char>);

/// A hunk as plain values: its header and its lines.
pub type HunkView = (Seq<char>, Seq<ChangeView>);

/// The plain form of a hunk's lines.
pub open spec fn changes_view(cs: Seq<DiffLine>) -> Seq<ChangeView> {
    Seq::new(cs.len(), |i: int| (cs[i].kind, cs[i].value@))
}

/// The plain form of a list of hunks.
pub open spec fn hunks_view(hs: Seq<DiffHunk>) -> Seq<HunkView> {
    Seq::new(hs.len(), |i: int| (hs[i].header@, changes_view(hs[i].changes@)))
}

/// The hunks of the unified line diff, with `radius` lines of context
/// around each change, that `similar` computes from `before` to `after`.
pub uninterp spec fn line_hunks(before: Seq<char>, after: Seq<char>, radius: usize) -> Seq<HunkView>;

/// The kinds of all the line changes that `similar` computes from `before`
/// to `after`, in order.
pub uninterp spec fn line_change_kinds(before: Seq<char>, after: Seq<char>) -> Seq<ChangeKind>;

/// The unified line diff of `before` and `after` with `radius` lines of
/// context, hunk by hunk (`TextDiff::from_lines(..).unified_diff()
/// .context_radius(radius).iter_hunks()`; the header is the hunk header's
/// display form, each line its tag and value).
///
/// `similar` doubles the radius when it groups the changes, so the radius
/// must stay within half the range of `usize`.
#[verifier::external_body]
fn unified_hunks(before: &str, after: &str, radius: usize) -> (r: Vec<DiffHunk>)
    requires
        radius <= usize::MAX / 2,
    ensures
        hunks_view(r@) == line_hunks(before@, after@, radius),
{
    let diff = similar::TextDiff::from_lines(before, after);
    let mut r = Vec::new();
    for hunk in diff.unified_diff().context_radius(radius).iter_hunks() {
        let mut changes = Vec::new();
        for c in hunk.iter_changes() {
            let kind = match c.tag() {
                similar::ChangeTag::Delete => ChangeKind::Delete,
                similar::ChangeTag::Insert => ChangeKind::Insert,
                similar::ChangeTag::Equal => ChangeKind::Equal,
            };
            changes.push(DiffLine { kind, value: c.value().to_owned() });
        }
        r.push(DiffHunk { header: hunk.header().to_string(), changes });
    }
    r
}

/// The kinds of all the changes of the line diff of `before` and `after`
/// (`TextDiff::from_lines(..).iter_all_changes()`, tag by tag).
#[verifier::external_body]
fn all_change_kinds(before: &str, after: &str) -> (r: Vec<ChangeKind>)
    ensures
        r@ == line_change_kinds(before@, after@),
{
    let diff = similar::TextDiff::from_lines(before, after);
    let mut r = Vec::new();
    for c in diff.iter_all_changes() {
        r.push(match c.tag() {
            similar::ChangeTag::Delete => ChangeKind::Delete,
            similar::ChangeTag::Insert => ChangeKind::Insert,
            similar::ChangeTag::Equal => ChangeKind::Equal,
        });
    }
    r
}

// ---------------------------------------------------------------------------
// Unified diff text
// ---------------------------------------------------------------------------

/// `s` without one trailing newline.
pub open spec fn strip_newline(s: Seq<char>) -> Seq<char> {
    if s.len() > 0 && s.last() == '\n' {
        s.drop_last()
    } else {
        s
    }
}

/// The marker a unified diff puts before a line.
pub open spec fn marker(k: ChangeKind) -> Seq<char> {
    match k {
        ChangeKind::Delete => "-"@,
        ChangeKind::Insert => "+"@,
        ChangeKind::Equal => " "@,
    }
}

/// The text of a hunk's lines.
pub open spec fn changes_text(cs: Seq<ChangeView>) -> Seq<char>
    decreases cs.len(),
{
    if cs.len() == 0 {
        Seq::empty()
    } else {
        changes_text(cs.drop_last()) + marker(cs.last().0) + strip_newline(cs.last().1) + "\n"@
    }
}

/// The text of a list of hunks: each header on its own line, then its lines.
pub open spec fn hunks_text(hs: Seq<HunkView>) -> Seq<char>
    decreases hs.len(),
{
    if hs.len() == 0 {
        Seq::empty()
    } else {
        hunks_text(hs.drop_last()) + hs.last().0 + "\n"@ + changes_text(hs.last().1)
    }
}

/// The text of a diff: the file headers, then the hunks.
pub open spec fn diff_text(hs: Seq<HunkView>) -> Seq<char> {
    "--- before\n+++ after\n"@ + hunks_text(hs)
}

/// `s` without one trailing newline.
fn strip_trailing_newline(s: &str) -> (r: String)
    ensures
        r@ == strip_newline(s@),
{
    let v = chars_of(s);
    let n = v.len();
    if n > 0 && v[n - 1] == '\n' {
        let r = string_of_chars(&v, 0, n - 1);
        proof {
            assert(v@.subrange(0, n - 1) =~= s@.drop_last());
        }
        r
    } else {
        let r = string_of_chars(&v, 0, n);
        proof {
            assert(v@.subrange(0, n as int) =~= s@);
        }
        r
    }
}

/// The unified-diff text of `hunks`, under `--- before` / `+++ after`
/// headers.
pub fn diff_text_of_hunks(hunks: &Vec<DiffHunk>) -> (r: String)
    ensures
        r@ == diff_text(hunks_view(hunks@)),
{
    let mut out = String::new();
    push_str(&mut out, "--- before\n+++ after\n");
    let ghost start = out@;
    let mut i: usize = 0;
    while i < hunks.len()
        invariant
            i <= hunks.len(),
            start == "--- before\n+++ after\n"@,
            out@ == start + hunks_text(hunks_view(hunks@.subrange(0, i as int))),
        decreases hunks.len() - i,
    {
        let h = &hunks[i];
        let ghost before_hunk = out@;
        push_str(&mut out, h.header.as_str());
        push_str(&mut out, "\n");
        let ghost after_header = out@;
        let mut j: usize = 0;
        while j < h.changes.len()
            invariant
                j <= h.changes.len(),
                out@ == after_header + changes_text(changes_view(h.changes@.subrange(0, j as int))),
            decreases h.changes.len() - j,
        {
            let c = &h.changes[j];
            match c.kind {
                ChangeKind::Delete => push_str(&mut out, "-"),
                ChangeKind::Insert => push_str(&mut out, "+"),
                ChangeKind::Equal => push_str(&mut out, " "),
            }
            let content = strip_trailing_newline(c.value.as_str());
            push_str(&mut out, content.as_str());
            push_str(&mut out, "\n");
            proof {
                let cur = changes_view(h.changes@.subrange(0, j + 1));
                assert(cur.drop_last() =~= changes_view(h.changes@.subrange(0, j as int)));
                assert(cur.last() == (c.kind, c.value@));
                assert(out@ =~= after_header + changes_text(cur));
            }
            j = j + 1;
        }
        proof {
            assert(h.changes@.subrange(0, j as int) =~= h.changes@);
            let cur = hunks_view(hunks@.subrange(0, i + 1));
            assert(cur.drop_last() =~= hunks_view(hunks@.subrange(0, i as int)));
            assert(cur.last() == (h.header@, changes_view(h.changes@)));
            assert(out@ =~= start + hunks_text(cur));
        }
        i = i + 1;
    }
    proof {
        assert(hunks@.subrange(0, i as int) =~= hunks@);
    }
    out
}

/// The context radius used for a requested number of context lines: the
/// number itself, capped at half the range of `usize` (no text has that
/// many lines, so a larger count shows the same context).
pub open spec fn radius_for(context_lines: usize) -> usize {
    if context_lines <= usize::MAX / 2 {
        context_lines
    } else {
        (usize::MAX / 2) as usize
    }
}

/// The context radius used for a requested number of context lines.
pub fn radius_of(context_lines: usize) -> (r: usize)
    ensures
        r == radius_for(context_lines),
        r <= usize::MAX / 2,
{
    if context_lines <= usize::MAX / 2 {
        context_lines
    } else {
        usize::MAX / 2
    }
}

/// A unified diff of `before` and `after` as text, under `--- before` /
/// `+++ after` headers, with `context_lines` lines of context around each
/// change.
pub fn generate_diff(before: &str, after: &str, context_lines: usize) -> (r: String)
    ensures
        r@ == diff_text(line_hunks(before@, after@, radius_for(context_lines))),
{
    let hunks = unified_hunks(before, after, radius_of(context_lines));
    diff_text_of_hunks(&hunks)
}

/// Whether the two texts differ.
pub fn has_changes(before: &str, after: &str) -> (b: bool)
    ensures
        b == (before@ != after@),
{
    !str_eq(before, after)
}

/// How many insertions and deletions a list of change kinds holds.
pub open spec fn count_kind(ks: Seq<ChangeKind>, k: ChangeKind) -> nat
    decreases ks.len(),
{
    if ks.len() == 0 {
        0
    } else {
        count_kind(ks.drop_last(), k) + if ks.last() == k { 1nat } else { 0nat }
    }
}

/// The number of insertions and of deletions in `kinds`.
pub fn count_kinds(kinds: &Vec<ChangeKind>) -> (r: (usize, usize))
    ensures
        r.0 == count_kind(kinds@, ChangeKind::Insert),
        r.1 == count_kind(kinds@, ChangeKind::Delete),
{
    let mut added: usize = 0;
    let mut removed: usize = 0;
    let mut i: usize = 0;
    while i < kinds.len()
        invariant
            i <= kinds.len(),
            added == count_kind(kinds@.subrange(0, i as int), ChangeKind::Insert),
            removed == count_kind(kinds@.subrange(0, i as int), ChangeKind::Delete),
            added + removed <= i,
        decreases kinds.len() - i,
    {
        proof {
            assert(kinds@.subrange(0, i + 1).drop_last() =~= kinds@.subrange(0, i as int));
        }
        match kinds[i] {
            ChangeKind::Insert => added = added + 1,
            ChangeKind::Delete => removed = removed + 1,
            ChangeKind::Equal => {},
        }
        i = i + 1;
    }
    proof {
        assert(kinds@.subrange(0, i as int) =~= kinds@);
    }
    (added, removed)
}

/// The number of added and of removed lines between `before` and `after`.
pub fn count_changes(before: &str, after: &str) -> (r: (usize, usize))
    ensures
        r.0 == count_kind(line_change_kinds(before@, after@), ChangeKind::Insert),
        r.1 == count_kind(line_change_kinds(before@, after@), ChangeKind::Delete),
{
    let kinds = all_change_kinds(before, after);
    count_kinds(&kinds)
}

// ---------------------------------------------------------------------------
// Configuration
// ---------------------------------------------------------------------------

/// Configuration for the diff callback.
#[derive(Clone, Copy, Debug, PartialEq, Eq, Structural)]
pub struct DiffConfig {
    /// Number of context lines around changes.
    pub context_lines: usize,
    /// Use colors in output.
    pub use_color: bool,
    /// Show line numbers.
    pub show_line_numbers: bool,
    /// Maximum lines to show per diff (0 = unlimited).
    pub max_lines: usize,
    /// Whether diffs are shown at all.
    pub enabled: bool,
}

/// The default diff configuration.
pub open spec fn default_diff_config() -> DiffConfig {
    DiffConfig { context_lines: 3, use_color: true, show_line_numbers: true, max_lines: 100, enabled: true }
}

impl Default for DiffConfig {
    fn default() -> (c: Self)
        ensures
            c == default_diff_config(),
    {
        DiffConfig { context_lines: 3, use_color: true, show_line_numbers: true, max_lines: 100, enabled: true }
    }
}

impl DiffConfig {
    /// The default configuration, enabled.
    pub fn enabled() -> (c: Self)
        ensures
            c == default_diff_config(),
    {
        Self::default()
    }

    /// The default configuration, disabled.
    pub fn disabled() -> (c: Self)
        ensures
            c == (DiffConfig { enabled: false, ..default_diff_config() }),
    {
        let mut c = Self::default();
        c.enabled = false;
        c
    }

    /// Sets the number of context lines.
    pub fn with_context_lines(self, lines: usize) -> (c: Self)
        ensures
            c == (DiffConfig { context_lines: lines, ..self }),
    {
        DiffConfig { context_lines: lines, ..self }
    }

    /// Sets whether colors are used.
    pub fn with_color(self, use_color: bool) -> (c: Self)
        ensures
            c == (DiffConfig { use_color, ..self }),
    {
        DiffConfig { use_color, ..self }
    }

    /// Sets whether line numbers are shown.
    pub fn with_line_numbers(self, show: bool) -> (c: Self)
        ensures
            c == (DiffConfig { show_line_numbers: show, ..self }),
    {
        DiffConfig { show_line_numbers: show, ..self }
    }

    /// Sets the maximum number of lines per diff.
    pub fn with_max_lines(self, max: usize) -> (c: Self)
        ensures
            c == (DiffConfig { max_lines: max, ..self }),
    {
        DiffConfig { max_lines: max, ..self }
    }
}

// ---------------------------------------------------------------------------
// Styled rendering
// ---------------------------------------------------------------------------

/// The styled line for one change.
pub open spec fn change_line(color: bool, c: ChangeView) -> Seq<SpanView> {
    let content = strip_newline(c.1);
    match c.0 {
        ChangeKind::Delete => if color {
            seq![("-"@, color_style(Color::Red)), (content, color_style(Color::Red))]
        } else {
            seq![("-"@ + content, plain_style())]
        },
        ChangeKind::Insert => if color {
            seq![("+"@, color_style(Color::Green)), (content, color_style(Color::Green))]
        } else {
            seq![("+"@ + content, plain_style())]
        },
        ChangeKind::Equal => seq![(" "@ + content, plain_style())],
    }
}

/// The line shown when the line limit cuts a hunk short; `n` is the number
/// of lines of the whole hunk.
pub open spec fn more_line(color: bool, n: nat) -> Seq<SpanView> {
    seq![
        ("... ("@ + dec(n) + " more changes)"@, if color {
            color_style(Color::BrightBlack)
        } else {
            plain_style()
        }),
    ]
}

/// Rendering the changes `cs` of a hunk of `total` lines, `shown` lines
/// having been shown already: the lines, the insertions and deletions
/// counted, and the lines shown afterwards. Once `max` lines are shown (when
/// `max` is not 0) the hunk ends with a note.
pub open spec fn render_changes(color: bool, max: nat, total: nat, cs: Seq<ChangeView>, shown: nat) -> (
    Seq<Seq<SpanView>>,
    nat,
    nat,
    nat,
)
    decreases cs.len(),
{
    if cs.len() == 0 {
        (Seq::empty(), 0, 0, shown)
    } else if max > 0 && shown >= max {
        (seq![more_line(color, total)], 0, 0, shown)
    } else {
        let next = if max > 0 { shown + 1 } else { shown };
        let r = render_changes(color, max, total, cs.drop_first(), next);
        (
            seq![change_line(color, cs[0])] + r.0,
            r.1 + if cs[0].0 == ChangeKind::Insert { 1nat } else { 0nat },
            r.2 + if cs[0].0 == ChangeKind::Delete { 1nat } else { 0nat },
            r.3,
        )
    }
}

/// Rendering a list of hunks: each header, then its changes.
pub open spec fn render_hunks(color: bool, max: nat, hs: Seq<HunkView>, shown: nat) -> (
    Seq<Seq<SpanView>>,
    nat,
    nat,
)
    decreases hs.len(),
{
    if hs.len() == 0 {
        (Seq::empty(), 0, 0)
    } else {
        let h = hs[0];
        let header = seq![(h.0, if color { color_style(Color::Cyan) } else { plain_style() })];
        let rc = render_changes(color, max, h.1.len(), h.1, shown);
        let rest = render_hunks(color, max, hs.drop_first(), rc.3);
        (seq![header] + rc.0 + rest.0, rc.1 + rest.1, rc.2 + rest.2)
    }
}

/// The two file-header lines of a styled diff.
pub open spec fn file_headers(color: bool, before_label: Seq<char>, after_label: Seq<char>) -> Seq<
    Seq<SpanView>,
> {
    if color {
        seq![
            seq![("---"@, color_style(Color::Red)), (" "@, plain_style()), (before_label, color_style(Color::Red))],
            seq![("+++"@, color_style(Color::Green)), (" "@, plain_style()), (after_label, color_style(Color::Green))],
        ]
    } else {
        seq![seq![("---"@ + " "@ + before_label, plain_style())], seq![("+++"@ + " "@ + after_label, plain_style())]]
    }
}

/// The total number of lines in a list of hunks.
pub open spec fn total_changes(hs: Seq<HunkView>) -> nat
    decreases hs.len(),
{
    if hs.len() == 0 {
        0
    } else {
        total_changes(hs.drop_last()) + hs.last().1.len()
    }
}

fn change_spans(color: bool, c: &DiffLine) -> (l: Vec<Span>)
    ensures
        line_view(l@) == change_line(color, (c.kind, c.value@)),
{
    let content = strip_trailing_newline(c.value.as_str());
    let mut l = Vec::new();
    match c.kind {
        ChangeKind::Delete => {
            if color {
                push_span(&mut l, "-", Style::fg(Color::Red));
                push_owned(&mut l, content, Style::fg(Color::Red));
            } else {
                let mut t = String::new();
                push_str(&mut t, "-");
                push_str(&mut t, content.as_str());
                push_owned(&mut l, t, Style::plain());
            }
        },
        ChangeKind::Insert => {
            if color {
                push_span(&mut l, "+", Style::fg(Color::Green));
                push_owned(&mut l, content, Style::fg(Color::Green));
            } else {
                let mut t = String::new();
                push_str(&mut t, "+");
                push_str(&mut t, content.as_str());
                push_owned(&mut l, t, Style::plain());
            }
        },
        ChangeKind::Equal => {
            let mut t = String::new();
            push_str(&mut t, " ");
            push_str(&mut t, content.as_str());
            push_owned(&mut l, t, Style::plain());
        },
    }
    proof {
        assert(line_view(l@) =~= change_line(color, (c.kind, c.value@)));
    }
    l
}

fn more_spans(color: bool, n: usize) -> (l: Vec<Span>)
    ensures
        line_view(l@) == more_line(color, n as nat),
{
    let mut t = String::new();
    push_str(&mut t, "... (");
    push_dec(&mut t, n as u64);
    push_str(&mut t, " more changes)");
    let mut l = Vec::new();
    push_owned(&mut l, t, Style::fg_if(color, Color::BrightBlack));
    proof {
        assert(line_view(l@) =~= more_line(color, n as nat));
    }
    l
}

/// Renders the changes of one hunk after `shown` lines; returns the lines
/// shown afterwards.
fn render_hunk_changes(
    out: &mut Vec<Vec<Span>>,
    color: bool,
    max: usize,
    h: &DiffHunk,
    shown: usize,
    added: &mut usize,
    removed: &mut usize,
) -> (next: usize)
    requires
        max > 0 ==> shown <= max,
        max == 0 ==> shown == 0,
        *old(added) + *old(removed) <= old(out)@.len(),
    ensures
        ({
            let r = render_changes(color, max as nat, h.changes@.len(), changes_view(h.changes@), shown as nat);
            &&& lines_view(final(out)@) == lines_view(old(out)@) + r.0
            &&& *final(added) == *old(added) + r.1
            &&& *final(removed) == *old(removed) + r.2
            &&& next == r.3
        }),
        max > 0 ==> next <= max,
        max == 0 ==> next == 0,
        *final(added) + *final(removed) <= final(out)@.len(),
{
    let ghost cs = changes_view(h.changes@);
    let ghost total = h.changes@.len();
    let ghost out0 = lines_view(out@);
    let ghost a0 = *added;
    let ghost r0 = *removed;
    let mut cur = shown;
    let mut j: usize = 0;
    proof {
        assert(cs.skip(0) =~= cs);
    }
    while j < h.changes.len()
        invariant
            j <= h.changes.len(),
            cs == changes_view(h.changes@),
            total == h.changes@.len(),
            out0 == lines_view(old(out)@),
            a0 == *old(added),
            r0 == *old(removed),
            max > 0 ==> cur <= max,
            max == 0 ==> cur == 0,
            *added + *removed <= out@.len(),
            ({
                let whole = render_changes(color, max as nat, total, cs, shown as nat);
                let rest = render_changes(color, max as nat, total, cs.skip(j as int), cur as nat);
                &&& out0 + whole.0 == lines_view(out@) + rest.0
                &&& a0 + whole.1 == *added + rest.1
                &&& r0 + whole.2 == *removed + rest.2
                &&& whole.3 == rest.3
            }),
        decreases h.changes.len() - j,
    {
        let ghost rest = cs.skip(j as int);
        let ghost before = lines_view(out@);
        if max > 0 && cur >= max {
            let l = more_spans(color, h.changes.len());
            push_line(out, l);
            proof {
                assert(render_changes(color, max as nat, total, rest, cur as nat) == (
                    seq![more_line(color, total)],
                    0nat,
                    0nat,
                    cur as nat,
                ));
                assert(lines_view(out@) =~= before + seq![more_line(color, total)]);
                let whole = render_changes(color, max as nat, total, cs, shown as nat);
                assert(lines_view(out@) == out0 + whole.0);
                assert(*added == a0 + whole.1);
                assert(*removed == r0 + whole.2);
                assert(cur == whole.3);
            }
            return cur;
        }
        let c = &h.changes[j];
        let l = change_spans(color, c);
        push_line(out, l);
        let _len = out.len();
        proof {
            assert(rest[0] == (c.kind, c.value@));
            assert(rest.drop_first() =~= cs.skip(j + 1));
            let next = if max > 0 { cur + 1 } else { cur as int };
            let r = render_changes(color, max as nat, total, rest.drop_first(), next as nat);
            assert(render_changes(color, max as nat, total, rest, cur as nat) == (
                seq![change_line(color, rest[0])] + r.0,
                r.1 + if rest[0].0 == ChangeKind::Insert { 1nat } else { 0nat },
                r.2 + if rest[0].0 == ChangeKind::Delete { 1nat } else { 0nat },
                r.3,
            ));
            assert(lines_view(out@) + r.0 =~= before + (seq![change_line(color, rest[0])] + r.0));
        }
        match c.kind {
            ChangeKind::Insert => {
                *added = *added + 1;
            },
            ChangeKind::Delete => {
                *removed = *removed + 1;
            },
            ChangeKind::Equal => {},
        }
        if max > 0 {
            cur = cur + 1;
        }
        j = j + 1;
    }
    proof {
        assert(cs.skip(j as int) =~= Seq::<ChangeView>::empty());
    }
    cur
}

/// The styled line for a file header: the marker, a space, the label.
fn header_spans(color: bool, mark: &str, label: &str, c: Color) -> (l: Vec<Span>)
    ensures
        line_view(l@) == if color {
            seq![(mark@, color_style(c)), (" "@, plain_style()), (label@, color_style(c))]
        } else {
            seq![(mark@ + " "@ + label@, plain_style())]
        },
{
    let mut l = Vec::new();
    if color {
        push_span(&mut l, mark, Style::fg(c));
        push_span(&mut l, " ", Style::plain());
        push_span(&mut l, label, Style::fg(c));
    } else {
        let mut t = String::new();
        push_str(&mut t, mark);
        push_str(&mut t, " ");
        push_str(&mut t, label);
        push_owned(&mut l, t, Style::plain());
    }
    proof {
        if color {
            assert(line_view(l@) =~= seq![(mark@, color_style(c)), (" "@, plain_style()), (label@, color_style(c))]);
        } else {
            assert(line_view(l@) =~= seq![(mark@ + " "@ + label@, plain_style())]);
        }
    }
    l
}

/// The styled lines of a unified diff of the given hunks under the two file
/// headers, with the numbers of inserted and deleted lines shown.
pub fn render_unified(
    config: &DiffConfig,
    before_label: &str,
    after_label: &str,
    hunks: &Vec<DiffHunk>,
) -> (r: (Vec<Vec<Span>>, usize, usize))
    ensures
        ({
            let rh = render_hunks(config.use_color, config.max_lines as nat, hunks_view(hunks@), 0);
            &&& lines_view(r.0@) == file_headers(config.use_color, before_label@, after_label@) + rh.0
            &&& r.1 == rh.1
            &&& r.2 == rh.2
        }),
{
    let color = config.use_color;
    let max = config.max_lines;
    let mut out: Vec<Vec<Span>> = Vec::new();
    let first = header_spans(color, "---", before_label, Color::Red);
    let second = header_spans(color, "+++", after_label, Color::Green);
    push_line(&mut out, first);
    push_line(&mut out, second);
    proof {
        assert(lines_view(out@) =~= file_headers(color, before_label@, after_label@));
    }
    let ghost hs = hunks_view(hunks@);
    let ghost out0 = lines_view(out@);
    let mut added: usize = 0;
    let mut removed: usize = 0;
    let mut shown: usize = 0;
    let mut i: usize = 0;
    proof {
        assert(hs.skip(0) =~= hs);
    }
    while i < hunks.len()
        invariant
            i <= hunks.len(),
            hs == hunks_view(hunks@),
            max == config.max_lines,
            color == config.use_color,
            max > 0 ==> shown <= max,
            max == 0 ==> shown == 0,
            added + removed <= out@.len(),
            ({
                let whole = render_hunks(color, max as nat, hs, 0);
                let rest = render_hunks(color, max as nat, hs.skip(i as int), shown as nat);
                &&& out0 + whole.0 == lines_view(out@) + rest.0
                &&& whole.1 == added + rest.1
                &&& whole.2 == removed + rest.2
            }),
        decreases hunks.len() - i,
    {
        let h = &hunks[i];
        let ghost rest = hs.skip(i as int);
        let ghost before = lines_view(out@);
        let ghost shown_before = shown as nat;
        let ghost a_before = added;
        let ghost r_before = removed;
        let hl = single(h.header.as_str(), Style::fg_if(color, Color::Cyan));
        push_line(&mut out, hl);
        shown = render_hunk_changes(&mut out, color, max, h, shown, &mut added, &mut removed);
        proof {
            assert(rest[0] == (h.header@, changes_view(h.changes@)));
            assert(rest.drop_first() =~= hs.skip(i + 1));
            let header = seq![(h.header@, if color { color_style(Color::Cyan) } else { plain_style() })];
            let rc = render_changes(color, max as nat, h.changes@.len(), changes_view(h.changes@), shown_before);
            assert(lines_view(out@) =~= before.push(header) + rc.0);
            assert(seq![header] + rc.0 + render_hunks(color, max as nat, hs.skip(i + 1), shown as nat).0
                =~= seq![header] + (rc.0 + render_hunks(color, max as nat, hs.skip(i + 1), shown as nat).0));
            assert(before.push(header) + rc.0 + render_hunks(color, max as nat, hs.skip(i + 1), shown as nat).0
                =~= before + (seq![header] + rc.0 + render_hunks(color, max as nat, hs.skip(i + 1), shown as nat).0));
        }
        i = i + 1;
    }
    proof {
        assert(hs.skip(i as int) =~= Seq::<HunkView>::empty());
    }
    (out, added, removed)
}

// ---------------------------------------------------------------------------
// The diff plugin
// ---------------------------------------------------------------------------

/// Counts kept by the diff plugin.
#[derive(Clone, Copy, Debug)]
pub struct DiffStats {
    /// Diffs shown.
    pub files_diffed: u32,
    /// Lines added over all diffs.
    pub lines_added: u32,
    /// Lines removed over all diffs.
    pub lines_removed: u32,
}

/// `a + b` as `u32` arithmetic wraps around.
pub open spec fn wrap_add(a: u32, b: u32) -> u32 {
    if a + b > u32::MAX {
        (a + b - 0x1_0000_0000) as u32
    } else {
        (a + b) as u32
    }
}

/// Callback that shows before/after diffs for changed files.
#[derive(Debug)]
pub struct DiffCallback {
    /// The configuration.
    pub config: DiffConfig,
    /// The counts so far.
    pub stats: DiffStats,
    /// The task being run.
    pub current_task: Option<String>,
}

impl DiffCallback {
    /// A diff callback with the default configuration.
    pub fn new() -> (c: Self)
        ensures
            c.config == default_diff_config(),
            c.stats == (DiffStats { files_diffed: 0, lines_added: 0, lines_removed: 0 }),
            c.current_task.is_none(),
    {
        Self::with_config(DiffConfig::default())
    }

    /// A diff callback with the given configuration.
    pub fn with_config(config: DiffConfig) -> (c: Self)
        ensures
            c.config == config,
            c.stats == (DiffStats { files_diffed: 0, lines_added: 0, lines_removed: 0 }),
            c.current_task.is_none(),
    {
        DiffCallback {
            config,
            stats: DiffStats { files_diffed: 0, lines_added: 0, lines_removed: 0 },
            current_task: None,
        }
    }

    /// An enabled diff callback.
    pub fn enabled() -> (c: Self)
        ensures
            c.config == default_diff_config(),
            c.stats == (DiffStats { files_diffed: 0, lines_added: 0, lines_removed: 0 }),
    {
        Self::with_config(DiffConfig::enabled())
    }

    /// A disabled diff callback.
    pub fn disabled() -> (c: Self)
        ensures
            c.config == (DiffConfig { enabled: false, ..default_diff_config() }),
            c.stats == (DiffStats { files_diffed: 0, lines_added: 0, lines_removed: 0 }),
    {
        Self::with_config(DiffConfig::disabled())
    }

    /// Whether diffs are shown.
    pub fn is_enabled(&self) -> (b: bool)
        ensures
            b == self.config.enabled,
    {
        self.config.enabled
    }

    /// Turns diffs on or off.
    pub fn set_enabled(&mut self, enabled: bool)
        ensures
            final(self).config == (DiffConfig { enabled, ..old(self).config }),
            final(self).stats == old(self).stats,
            final(self).current_task == old(self).current_task,
    {
        self.config.enabled = enabled;
    }

    /// The styled lines of the diff of `before` and `after` (with the
    /// configured number of context lines) under the given labels (`before`
    /// and `after` when none are given), with the numbers of inserted and
    /// deleted lines.
    pub fn unified_diff_lines(
        &self,
        before: &str,
        after: &str,
        before_header: Option<&str>,
        after_header: Option<&str>,
    ) -> (r: (Vec<Vec<Span>>, usize, usize))
        ensures
            ({
                let bl = match before_header {
                    Some(h) => h@,
                    None => "before"@,
                };
                let al = match after_header {
                    Some(h) => h@,
                    None => "after"@,
                };
                let rh = render_hunks(
                    self.config.use_color,
                    self.config.max_lines as nat,
                    line_hunks(before@, after@, radius_for(self.config.context_lines)),
                    0,
                );
                &&& lines_view(r.0@) == file_headers(self.config.use_color, bl, al) + rh.0
                &&& r.1 == rh.1
                &&& r.2 == rh.2
            }),
    {
        let hunks = unified_hunks(before, after, radius_of(self.config.context_lines));
        let bl = match before_header {
            Some(h) => h,
            None => "before",
        };
        let al = match after_header {
            Some(h) => h,
            None => "after",
        };
        render_unified(&self.config, bl, al, &hunks)
    }

    /// Records a diff that was shown.
    pub fn record_diff(&mut self, added: usize, removed: usize)
        ensures
            final(self).stats.files_diffed == wrap_add(old(self).stats.files_diffed, 1),
            final(self).stats.lines_added == wrap_add(old(self).stats.lines_added, added as u32),
            final(self).stats.lines_removed == wrap_add(old(self).stats.lines_removed, removed as u32),
            final(self).config == old(self).config,
            final(self).current_task == old(self).current_task,
    {
        self.stats.files_diffed = self.stats.files_diffed.wrapping_add(1);
        self.stats.lines_added = self.stats.lines_added.wrapping_add(added as u32);
        self.stats.lines_removed = self.stats.lines_removed.wrapping_add(removed as u32);
    }

    /// What a task's diff shows: nothing when diffs are off or the texts are
    /// equal; otherwise the diff's lines, which are then counted.
    pub fn task_diff_lines(
        &mut self,
        before: Option<&str>,
        after: Option<&str>,
        before_header: Option<&str>,
        after_header: Option<&str>,
    ) -> (r: Vec<Vec<Span>>)
        ensures
            ({
                let b = match before {
                    Some(s) => s@,
                    None => Seq::empty(),
                };
                let a = match after {
                    Some(s) => s@,
                    None => Seq::empty(),
                };
                let bl = match before_header {
                    Some(h) => h@,
                    None => "before"@,
                };
                let al = match after_header {
                    Some(h) => h@,
                    None => "after"@,
                };
                let rh = render_hunks(old(self).config.use_color, old(self).config.max_lines as nat, line_hunks(b, a, radius_for(old(self).config.context_lines)), 0);
                if !old(self).config.enabled || b == a {
                    &&& r@.len() == 0
                    &&& final(self).stats == old(self).stats
                } else {
                    &&& lines_view(r@) == file_headers(old(self).config.use_color, bl, al) + rh.0
                    &&& final(self).stats == (DiffStats {
                        files_diffed: wrap_add(old(self).stats.files_diffed, 1),
                        lines_added: wrap_add(old(self).stats.lines_added, rh.1 as u32),
                        lines_removed: wrap_add(old(self).stats.lines_removed, rh.2 as u32),
                    })
                }
            }),
            final(self).config == old(self).config,
    {
        if !self.config.enabled {
            return Vec::new();
        }
        let b = match before {
            Some(s) => s,
            None => "",
        };
        let a = match after {
            Some(s) => s,
            None => "",
        };
        proof {
            reveal_strlit("");
            assert(""@ =~= Seq::<char>::empty());
        }
        if str_eq(b, a) {
            return Vec::new();
        }
        let (lines, added, removed) = self.unified_diff_lines(b, a, before_header, after_header);
        self.record_diff(added, removed);
        lines
    }

    /// The closing summary: nothing when diffs are off or none was shown.
    pub fn summary_lines(&self) -> (r: Vec<Vec<Span>>)
        ensures
            !self.config.enabled || self.stats.files_diffed == 0 ==> r@.len() == 0,
            self.config.enabled && self.stats.files_diffed > 0 ==> lines_view(r@) == seq![
                Seq::<SpanView>::empty(),
                summary_line(self.config.use_color, self.stats),
            ],
    {
        let mut out = Vec::new();
        if !self.config.enabled || self.stats.files_diffed == 0 {
            return out;
        }
        push_line(&mut out, blank());
        let mut l = Vec::new();
        let files = dec_string(self.stats.files_diffed as u64);
        let added = dec_string(self.stats.lines_added as u64);
        let removed = dec_string(self.stats.lines_removed as u64);
        if self.config.use_color {
            push_span(&mut l, "Diff Summary", Style::bold(Color::BrightWhite));
            push_span(&mut l, ": ", Style::plain());
            push_owned(&mut l, files, Style::plain());
            push_span(&mut l, " file(s), ", Style::plain());
            push_owned(&mut l, added, Style::plain());
            push_span(&mut l, " insertion(s)(", Style::plain());
            push_span(&mut l, "+", Style::fg(Color::Green));
            push_span(&mut l, "), ", Style::plain());
            push_owned(&mut l, removed, Style::plain());
            push_span(&mut l, " deletion(s)(", Style::plain());
            push_span(&mut l, "-", Style::fg(Color::Red));
            push_span(&mut l, ")", Style::plain());
        } else {
            let mut t = String::new();
            push_str(&mut t, "Diff Summary: ");
            push_str(&mut t, files.as_str());
            push_str(&mut t, " file(s), ");
            push_str(&mut t, added.as_str());
            push_str(&mut t, " insertion(s)(+), ");
            push_str(&mut t, removed.as_str());
            push_str(&mut t, " deletion(s)(-)");
            push_owned(&mut l, t, Style::plain());
        }
        proof {
            assert(line_view(l@) =~= summary_line(self.config.use_color, self.stats));
        }
        push_line(&mut out, l);
        proof {
            assert(lines_view(out@) =~= seq![Seq::<SpanView>::empty(), summary_line(self.config.use_color, self.stats)]);
        }
        out
    }
}

/// The summary line of the diff plugin.
pub open spec fn summary_line(color: bool, s: DiffStats) -> Seq<SpanView> {
    let files = dec(s.files_diffed as nat);
    let added = dec(s.lines_added as nat);
    let removed = dec(s.lines_removed as nat);
    if color {
        seq![
            ("Diff Summary"@, bold_style(Color::BrightWhite)),
            (": "@, plain_style()),
            (files, plain_style()),
            (" file(s), "@, plain_style()),
            (added, plain_style()),
            (" insertion(s)("@, plain_style()),
            ("+"@, color_style(Color::Green)),
            ("), "@, plain_style()),
            (removed, plain_style()),
            (" deletion(s)("@, plain_style()),
            ("-"@, color_style(Color::Red)),
            (")"@, plain_style()),
        ]
    } else {
        seq![
            ("Diff Summary: "@ + files + " file(s), "@ + added + " insertion(s)(+), "@ + removed
                + " deletion(s)(-)"@, plain_style()),
        ]
    }
}


/// Several callbacks that receive the same events, in the order they were
/// added.
#[derive(Debug)]
pub struct CompositeCallback<C> {
    /// The callbacks, in the order events reach them.
    pub callbacks: Vec<C>,
}

impl<C> CompositeCallback<C> {
    /// A composite without callbacks.
    pub fn new() -> (c: Self)
        ensures
            c.callbacks@.len() == 0,
    {
        CompositeCallback { callbacks: Vec::new() }
    }

    /// The same composite with `callback` added last.
    pub fn with_callback(self, callback: C) -> (c: Self)
        ensures
            c.callbacks@ == self.callbacks@.push(callback),
    {
        let mut c = self;
        c.callbacks.push(callback);
        c
    }

    /// Adds `callback` last.
    pub fn add_callback(&mut self, callback: C)
        ensures
            final(self).callbacks@ == old(self).callbacks@.push(callback),
    {
        self.callbacks.push(callback);
    }
}

impl<C> Default for CompositeCallback<C> {
    fn default() -> (c: Self)
        ensures
            c.callbacks@.len() == 0,
    {
        Self::new()
    }
}

} // verus!
