//! Styled output lines.
//!
//! Plugins describe what they print as lines made of spans: a piece of text
//! and the style it is shown in. Whether the terminal shows colors is decided
//! where the lines are printed; a plugin that was told not to use colors
//! emits plain spans.
use vstd::prelude::*;
use crate::text::push_str;

verus! {

/// A foreground color.
#[derive(Clone, Copy, Debug, PartialEq, Eq, Structural)]
pub enum Color {
    /// The terminal's default color.
    Default,
    Red,
    Green,
    Yellow,
    Blue,
    Cyan,
    Magenta,
    White,
    BrightBlack,
    BrightRed,
    BrightBlue,
    BrightCyan,
    BrightMagenta,
    BrightWhite,
}

/// How a span is shown.
#[derive(Clone, Copy, Debug, PartialEq, Eq, Structural)]
pub struct Style {
    /// Foreground color.
    pub color: Color,
    /// Bold text.
    pub bold: bool,
    /// Dimmed text.
    pub dimmed: bool,
    /// Italic text.
    pub italic: bool,
}

/// The style of unstyled text.
pub open spec fn plain_style() -> Style {
    Style { color: Color::Default, bold: false, dimmed: false, italic: false }
}

/// A color, not bold.
pub open spec fn color_style(c: Color) -> Style {
    Style { color: c, bold: false, dimmed: false, italic: false }
}

/// A color, bold.
pub open spec fn bold_style(c: Color) -> Style {
    Style { color: c, bold: true, dimmed: false, italic: false }
}

impl Style {
    /// Unstyled text.
    pub fn plain() -> (s: Style)
        ensures
            s == plain_style(),
    {
        Style { color: Color::Default, bold: false, dimmed: false, italic: false }
    }

    /// A color, not bold.
    pub fn fg(c: Color) -> (s: Style)
        ensures
            s == color_style(c),
    {
        Style { color: c, bold: false, dimmed: false, italic: false }
    }

    /// A color, bold.
    pub fn bold(c: Color) -> (s: Style)
        ensures
            s == bold_style(c),
    {
        Style { color: c, bold: true, dimmed: false, italic: false }
    }

    /// `c` when colors are on, plain otherwise.
    pub fn fg_if(on: bool, c: Color) -> (s: Style)
        ensures
            s == if on { color_style(c) } else { plain_style() },
    {
        if on {
            Style::fg(c)
        } else {
            Style::plain()
        }
    }

    /// Bold `c` when colors are on, plain otherwise.
    pub fn bold_if(on: bool, c: Color) -> (s: Style)
        ensures
            s == if on { bold_style(c) } else { plain_style() },
    {
        if on {
            Style::bold(c)
        } else {
            Style::plain()
        }
    }
}

/// A piece of text in one style.
#[derive(Debug)]
pub struct Span {
    /// The text.
    pub text: String,
    /// Its style.
    pub style: Style,
}

/// A span as plain values.
pub type SpanView = (Seq<char>, Style);

/// The plain form of a line.
pub open spec fn line_view(l: Seq<Span>) -> Seq<SpanView> {
    Seq::new(l.len(), |i: int| (l[i].text@, l[i].style))
}

/// The text of a line, without its styles.
pub open spec fn text_of(l: Seq<SpanView>) -> Seq<char>
    decreases l.len(),
{
    if l.len() == 0 {
        Seq::empty()
    } else {
        text_of(l.drop_last()) + l.last().0
    }
}

/// The text of two lines joined is the first's text, then the second's.
pub proof fn lemma_text_of_add(a: Seq<SpanView>, b: Seq<SpanView>)
    ensures
        text_of(a + b) == text_of(a) + text_of(b),
    decreases b.len(),
{
    if b.len() == 0 {
        assert(a + b =~= a);
        assert(text_of(a) + text_of(b) =~= text_of(a));
    } else {
        assert((a + b).drop_last() =~= a + b.drop_last());
        assert((a + b).last() == b.last());
        lemma_text_of_add(a, b.drop_last());
        assert(text_of(a + b) =~= text_of(a) + text_of(b));
    }
}

/// The plain form of a sequence of lines.
pub open spec fn lines_view(ls: Seq<Vec<Span>>) -> Seq<Seq<SpanView>> {
    Seq::new(ls.len(), |i: int| line_view(ls[i]@))
}

/// Appends a span.
pub fn push_span(line: &mut Vec<Span>, text: &str, style: Style)
    ensures
        line_view(final(line)@) == line_view(old(line)@).push((text@, style)),
{
    line.push(Span { text: text.to_owned(), style });
    proof {
        assert(line_view(line@) =~= line_view(old(line)@).push((text@, style)));
    }
}

/// Appends a span holding `text` (moved in).
pub fn push_owned(line: &mut Vec<Span>, text: String, style: Style)
    ensures
        line_view(final(line)@) == line_view(old(line)@).push((text@, style)),
{
    line.push(Span { text, style });
    proof {
        assert(line_view(line@) =~= line_view(old(line)@).push((text@, style)));
    }
}

/// A line of one span.
pub fn single(text: &str, style: Style) -> (l: Vec<Span>)
    ensures
        line_view(l@) == seq![(text@, style)],
{
    let mut l = Vec::new();
    push_span(&mut l, text, style);
    proof {
        assert(line_view(l@) =~= seq![(text@, style)]);
    }
    l
}

/// An empty line.
pub fn blank() -> (l: Vec<Span>)
    ensures
        line_view(l@) == Seq::<SpanView>::empty(),
{
    let l = Vec::new();
    proof {
        assert(line_view(l@) =~= Seq::<SpanView>::empty());
    }
    l
}

/// Appends a line to a list of lines.
pub fn push_line(out: &mut Vec<Vec<Span>>, l: Vec<Span>)
    ensures
        lines_view(final(out)@) == lines_view(old(out)@).push(line_view(l@)),
        final(out)@.len() == old(out)@.len() + 1,
{
    let ghost lv = line_view(l@);
    out.push(l);
    proof {
        assert(lines_view(out@) =~= lines_view(old(out)@).push(lv));
    }
}

/// The text of a line as one string.
pub fn line_text(l: &Vec<Span>) -> (s: String)
    ensures
        s@ == text_of(line_view(l@)),
{
    let mut s = String::new();
    let mut i: usize = 0;
    while i < l.len()
        invariant
            i <= l.len(),
            s@ == text_of(line_view(l@.subrange(0, i as int))),
        decreases l.len() - i,
    {
        push_str(&mut s, l[i].text.as_str());
        proof {
            let cur = line_view(l@.subrange(0, i + 1));
            assert(cur.drop_last() =~= line_view(l@.subrange(0, i as int)));
        }
        i = i + 1;
    }
    proof {
        assert(l@.subrange(0, i as int) =~= l@);
    }
    s
}

/// Appends all of `more` to `out`.
pub fn append_lines(out: &mut Vec<Vec<Span>>, more: Vec<Vec<Span>>)
    ensures
        lines_view(final(out)@) == lines_view(old(out)@) + lines_view(more@),
{
    let ghost start = lines_view(out@);
    let ghost mv = lines_view(more@);
    let mut rest = more;
    let mut taken: Vec<Vec<Span>> = Vec::new();
    while rest.len() > 0
        invariant
            lines_view(taken@) + lines_view(rest@).reverse() == mv.reverse(),
        decreases rest.len(),
    {
        let ghost rv = lines_view(rest@);
        let l = rest.pop().unwrap();
        let ghost lv = line_view(l@);
        taken.push(l);
        proof {
            assert(rv =~= lines_view(rest@).push(lv));
            assert(lines_view(taken@) =~= lines_view(taken@).drop_last().push(lv));
            assert(rv.reverse() =~= seq![lv] + lines_view(rest@).reverse());
        }
    }
    proof {
        assert(lines_view(rest@).reverse() =~= Seq::<Seq<SpanView>>::empty());
        assert(lines_view(taken@) =~= mv.reverse());
    }
    while taken.len() > 0
        invariant
            lines_view(out@) + lines_view(taken@).reverse() == start + mv,
        decreases taken.len(),
    {
        let ghost tv = lines_view(taken@);
        let l = taken.pop().unwrap();
        let ghost lv = line_view(l@);
        push_line(out, l);
        proof {
            assert(tv =~= lines_view(taken@).push(lv));
            assert(tv.reverse() =~= seq![lv] + lines_view(taken@).reverse());
        }
    }
    proof {
        assert(lines_view(taken@).reverse() =~= Seq::<Seq<SpanView>>::empty());
    }
}

} // verus!
