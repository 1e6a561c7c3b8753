//! Styled text: what a terminal line says and how it looks.

use vstd::prelude::*;
use crate::text;

verus! {

/// The colors that are used.
#[derive(Clone, Copy, Debug, PartialEq, Eq, Structural)]
pub enum Color {
    Black,
    Red,
    Green,
    Yellow,
    Blue,
    Magenta,
    Cyan,
    Gray,
    DarkGray,
}

/// How a run of text looks.
#[derive(Clone, Copy, Debug, PartialEq, Eq, Structural)]
pub struct Style {
    pub fg: Option<Color>,
    pub bg: Option<Color>,
    pub bold: bool,
    pub italic: bool,
    pub crossed_out: bool,
    pub reversed: bool,
}

/// A style that changes nothing.
pub open spec fn plain() -> Style {
    Style {
        fg: None,
        bg: None,
        bold: false,
        italic: false,
        crossed_out: false,
        reversed: false,
    }
}

/// A style that only sets the color.
pub open spec fn colored(color: Color) -> Style {
    Style { fg: Some(color), ..plain() }
}

/// `style` in bold.
pub open spec fn bolded(style: Style) -> Style {
    Style { bold: true, ..style }
}

impl Style {
    /// A style that changes nothing.
    pub fn new() -> (r: Style)
        ensures
            r == plain(),
    {
        Style {
            fg: None,
            bg: None,
            bold: false,
            italic: false,
            crossed_out: false,
            reversed: false,
        }
    }

    /// This style in this color.
    pub fn fg(self, color: Color) -> (r: Style)
        ensures
            r == (Style { fg: Some(color), ..self }),
    {
        let mut r = self;
        r.fg = Some(color);
        r
    }

    /// This style on this background.
    pub fn bg(self, color: Color) -> (r: Style)
        ensures
            r == (Style { bg: Some(color), ..self }),
    {
        let mut r = self;
        r.bg = Some(color);
        r
    }

    /// This style in bold.
    pub fn bold(self) -> (r: Style)
        ensures
            r == bolded(self),
    {
        let mut r = self;
        r.bold = true;
        r
    }

    /// This style in italics.
    pub fn italic(self) -> (r: Style)
        ensures
            r == (Style { italic: true, ..self }),
    {
        let mut r = self;
        r.italic = true;
        r
    }

    /// This style crossed out.
    pub fn crossed_out(self) -> (r: Style)
        ensures
            r == (Style { crossed_out: true, ..self }),
    {
        let mut r = self;
        r.crossed_out = true;
        r
    }

    /// This style with both colors exchanged.
    pub fn reversed(self) -> (r: Style)
        ensures
            r == (Style { reversed: true, ..self }),
    {
        let mut r = self;
        r.reversed = true;
        r
    }
}

/// A run of text in one style.
#[derive(Debug, PartialEq, Eq)]
pub struct Span {
    pub content: String,
    pub style: Style,
}

/// What a [`Span`] says.
pub struct SpanView {
    pub content: Seq<char>,
    pub style: Style,
}

impl View for Span {
    type V = SpanView;

    open spec fn view(&self) -> SpanView {
        SpanView { content: self.content@, style: self.style }
    }
}

/// A run of text in a style of its own.
pub open spec fn styled(content: Seq<char>, style: Style) -> SpanView {
    SpanView { content, style }
}

/// A run of text in the style around it.
pub open spec fn raw(content: Seq<char>) -> SpanView {
    SpanView { content, style: plain() }
}

impl Span {
    /// A run of text in a style of its own.
    pub fn styled(content: &str, style: Style) -> (r: Span)
        ensures
            r@ == styled(content@, style),
    {
        Span { content: text::copy(content), style }
    }

    /// A run of text in the style around it.
    pub fn raw(content: &str) -> (r: Span)
        ensures
            r@ == raw(content@),
    {
        Span { content: text::copy(content), style: Style::new() }
    }

    /// A copy of this run.
    pub fn copy(&self) -> (r: Span)
        ensures
            r@ == self@,
    {
        Span { content: self.content.clone(), style: self.style }
    }
}

/// A line of styled runs.
#[derive(Debug, PartialEq, Eq)]
pub struct Line {
    pub spans: Vec<Span>,
    /// The style around the runs.
    pub style: Style,
}

/// What a [`Line`] says.
pub struct LineView {
    pub spans: Seq<SpanView>,
    pub style: Style,
}

/// What some runs say.
pub open spec fn span_views(spans: Seq<Span>) -> Seq<SpanView> {
    spans.map_values(|s: Span| s@)
}

impl View for Line {
    type V = LineView;

    open spec fn view(&self) -> LineView {
        LineView { spans: span_views(self.spans@), style: self.style }
    }
}

/// What some lines say.
pub open spec fn line_views(lines: Seq<Line>) -> Seq<LineView> {
    lines.map_values(|l: Line| l@)
}

/// A line without any run.
pub open spec fn blank_line() -> LineView {
    LineView { spans: Seq::empty(), style: plain() }
}

/// A line of these runs.
pub open spec fn line_of(spans: Seq<SpanView>) -> LineView {
    LineView { spans, style: plain() }
}

/// A line of one run, the style on the line.
pub open spec fn styled_line(content: Seq<char>, style: Style) -> LineView {
    LineView { spans: seq![raw(content)], style }
}

impl Line {
    /// A line without any run.
    pub fn blank() -> (r: Line)
        ensures
            r@ == blank_line(),
    {
        let spans: Vec<Span> = Vec::new();
        assert(span_views(spans@) =~= Seq::empty());
        Line { spans, style: Style::new() }
    }

    /// A line of these runs.
    pub fn of(spans: Vec<Span>) -> (r: Line)
        ensures
            r@ == line_of(span_views(spans@)),
    {
        Line { spans, style: Style::new() }
    }

    /// A line of one run.
    pub fn of_one(span: Span) -> (r: Line)
        ensures
            r@ == line_of(seq![span@]),
    {
        let mut spans: Vec<Span> = Vec::new();
        spans.push(span);
        assert(span_views(spans@) =~= seq![span@]);
        Line { spans, style: Style::new() }
    }

    /// A line of two runs.
    pub fn of_two(a: Span, b: Span) -> (r: Line)
        ensures
            r@ == line_of(seq![a@, b@]),
    {
        let mut spans: Vec<Span> = Vec::new();
        spans.push(a);
        spans.push(b);
        assert(span_views(spans@) =~= seq![a@, b@]);
        Line { spans, style: Style::new() }
    }

    /// A line of one run, the style on the line.
    pub fn styled(content: &str, style: Style) -> (r: Line)
        ensures
            r@ == styled_line(content@, style),
    {
        let mut spans: Vec<Span> = Vec::new();
        spans.push(Span::raw(content));
        assert(span_views(spans@) =~= seq![raw(content@)]);
        Line { spans, style }
    }
}

/// Appends `more` to `lines`.
pub fn append_lines(lines: &mut Vec<Line>, more: Vec<Line>)
    ensures
        line_views(final(lines)@) == line_views(old(lines)@) + line_views(more@),
{
    let mut more = more;
    let ghost tail = more@;
    lines.append(&mut more);
    assert(line_views(lines@) =~= line_views(old(lines)@) + line_views(tail));
}

/// Pushes one line.
pub fn push_line(lines: &mut Vec<Line>, line: Line)
    ensures
        line_views(final(lines)@) == line_views(old(lines)@).push(line@),
{
    lines.push(line);
    assert(line_views(lines@) =~= line_views(old(lines)@).push(line@));
}

/// Pushes one run.
pub fn push_span(spans: &mut Vec<Span>, span: Span)
    ensures
        span_views(final(spans)@) == span_views(old(spans)@).push(span@),
{
    spans.push(span);
    assert(span_views(spans@) =~= span_views(old(spans)@).push(span@));
}

/// A part of the screen.
#[derive(Clone, Copy, Debug, PartialEq, Eq, Structural)]
pub struct Rect {
    pub x: u16,
    pub y: u16,
    pub width: u16,
    pub height: u16,
}

/// Whether a part of the screen ends where a screen can.
pub open spec fn on_screen(area: Rect) -> bool {
    area.x + area.width <= u16::MAX && area.y + area.height <= u16::MAX
}

} // verus!
