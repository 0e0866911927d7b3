//! Styled text, and the list of things to paint that a frame is made of.
use vstd::prelude::*;

use crate::app::types::Rect;

verus! {

/// A terminal colour.
#[derive(Debug, Clone, Copy, PartialEq, Eq, Structural)]
pub enum Color {
    Black,
    Red,
    Green,
    Yellow,
    Blue,
    Magenta,
    Cyan,
    Gray,
    DarkGray,
    White,
}

/// How a text looks. What is not set is the terminal's own.
#[derive(Debug, Clone, Copy, PartialEq, Eq, Structural)]
pub struct Style {
    pub fg: Option<Color>,
    pub bg: Option<Color>,
    pub bold: bool,
    pub dim: bool,
    pub italic: bool,
    pub underlined: bool,
}

/// The terminal's own style.
pub open spec fn plain() -> Style {
    Style { fg: None, bg: None, bold: false, dim: false, italic: false, underlined: false }
}

/// A colour on the terminal's own background.
pub open spec fn inked(c: Color) -> Style {
    Style { fg: Some(c), ..plain() }
}

/// The same in bold.
pub open spec fn strong(c: Color) -> Style {
    Style { bold: true, ..inked(c) }
}

/// The same, dimmed.
pub open spec fn faint(c: Color) -> Style {
    Style { dim: true, ..inked(c) }
}

/// A colour on another.
pub open spec fn over(fg: Color, bg: Color) -> Style {
    Style { bg: Some(bg), ..inked(fg) }
}

/// The style of what is selected.
pub open spec fn chosen() -> Style {
    Style { bold: true, ..over(Color::Black, Color::Cyan) }
}

impl Style {
    /// The terminal's own style.
    pub fn plain() -> (s: Style)
        ensures
            s == plain(),
    {
        Style { fg: None, bg: None, bold: false, dim: false, italic: false, underlined: false }
    }

    /// A colour on the terminal's own background.
    pub fn fg(c: Color) -> (s: Style)
        ensures
            s == inked(c),
    {
        Style { fg: Some(c), bg: None, bold: false, dim: false, italic: false, underlined: false }
    }

    /// The same in bold.
    pub fn bold(c: Color) -> (s: Style)
        ensures
            s == strong(c),
    {
        Style { fg: Some(c), bg: None, bold: true, dim: false, italic: false, underlined: false }
    }

    /// The same, dimmed.
    pub fn dim(c: Color) -> (s: Style)
        ensures
            s == faint(c),
    {
        Style { fg: Some(c), bg: None, bold: false, dim: true, italic: false, underlined: false }
    }

    /// A colour on another.
    pub fn on(fg: Color, bg: Color) -> (s: Style)
        ensures
            s == over(fg, bg),
    {
        Style {
            fg: Some(fg),
            bg: Some(bg),
            bold: false,
            dim: false,
            italic: false,
            underlined: false,
        }
    }

    /// The style of what is selected.
    pub fn selected() -> (s: Style)
        ensures
            s == chosen(),
    {
        Style {
            fg: Some(Color::Black),
            bg: Some(Color::Cyan),
            bold: true,
            dim: false,
            italic: false,
            underlined: false,
        }
    }
}

/// A run of text in one style.
#[derive(Debug)]
pub struct Span {
    pub text: String,
    pub style: Style,
}

/// A run of text, as a mathematical value.
pub struct SpanModel {
    pub text: Seq<char>,
    pub style: Style,
}

impl View for Span {
    type V = SpanModel;

    open spec fn view(&self) -> SpanModel {
        SpanModel { text: self.text@, style: self.style }
    }
}

/// A run of text in one style.
pub open spec fn span(text: Seq<char>, style: Style) -> SpanModel {
    SpanModel { text, style }
}

/// A line: runs of text one behind the other.
#[derive(Debug)]
pub struct Line {
    pub spans: Vec<Span>,
}

impl View for Line {
    type V = Seq<SpanModel>;

    open spec fn view(&self) -> Seq<SpanModel> {
        self.spans@.map_values(|s: Span| s@)
    }
}

/// The models of a list of lines.
pub open spec fn lines_of(v: Seq<Line>) -> Seq<Seq<SpanModel>> {
    v.map_values(|l: Line| l@)
}

/// A line of one run.
pub open spec fn one(text: Seq<char>, style: Style) -> Seq<SpanModel> {
    seq![span(text, style)]
}

/// An empty line.
pub open spec fn blank() -> Seq<SpanModel> {
    Seq::empty()
}

impl Span {
    /// A run of text in one style.
    pub fn of(text: &str, style: Style) -> (s: Span)
        ensures
            s@ == span(text@, style),
    {
        Span { text: text.to_owned(), style }
    }

    /// A run of text in one style.
    pub fn owned(text: String, style: Style) -> (s: Span)
        ensures
            s@ == span(text@, style),
    {
        Span { text, style }
    }
}

impl Line {
    /// An empty line.
    pub fn empty() -> (l: Line)
        ensures
            l@ == blank(),
    {
        let l = Line { spans: Vec::new() };
        assert(l@ =~= blank());
        l
    }

    /// Put a run of text at the end.
    pub fn add(&mut self, s: Span)
        ensures
            final(self)@ == old(self)@.push(s@),
    {
        let ghost before = self@;
        self.spans.push(s);
        assert(self@ =~= before.push(s@));
    }

    /// A line of one run.
    pub fn one(text: &str, style: Style) -> (l: Line)
        ensures
            l@ == one(text@, style),
    {
        let mut l = Line::empty();
        l.add(Span::of(text, style));
        assert(l@ =~= one(text@, style));
        l
    }

    /// A line of two runs.
    pub fn two(a: Span, b: Span) -> (l: Line)
        ensures
            l@ == seq![a@, b@],
    {
        let mut l = Line::empty();
        l.add(a);
        l.add(b);
        assert(l@ =~= seq![a@, b@]);
        l
    }

    /// A line of three runs.
    pub fn three(a: Span, b: Span, c: Span) -> (l: Line)
        ensures
            l@ == seq![a@, b@, c@],
    {
        let mut l = Line::empty();
        l.add(a);
        l.add(b);
        l.add(c);
        assert(l@ =~= seq![a@, b@, c@]);
        l
    }
}

/// Put a line at the end.
pub fn put(lines: &mut Vec<Line>, line: Line)
    ensures
        lines_of(final(lines)@) == lines_of(old(lines)@).push(line@),
{
    let ghost before = lines@;
    lines.push(line);
    assert(lines_of(lines@) =~= lines_of(before).push(line@));
}

/// No lines.
pub fn no_lines() -> (v: Vec<Line>)
    ensures
        lines_of(v@) == Seq::<Seq<SpanModel>>::empty(),
{
    let v: Vec<Line> = Vec::new();
    assert(lines_of(v@) =~= Seq::<Seq<SpanModel>>::empty());
    v
}

/// How lines that are too long are shown.
#[derive(Debug, Clone, Copy, PartialEq, Eq, Structural)]
pub enum Wrapping {
    /// Cut off.
    Cut,
    /// Broken, with their leading space kept.
    Keep,
    /// Broken, with their leading space dropped.
    Trim,
}

/// One thing to paint.
#[derive(Debug)]
pub enum Paint {
    /// Nothing at all: what was there before is wiped.
    Clear { area: Rect },
    /// A border with a title in it.
    Block { area: Rect, title: String, border: Style, style: Style },
    /// Lines of text, from a scroll offset on.
    Text { area: Rect, lines: Vec<Line>, style: Style, wrapping: Wrapping, scroll: u16 },
    /// A bordered list with a title, the selected item kept in sight.
    List { area: Rect, title: String, items: Vec<Line>, selected: Option<usize> },
}

/// One thing to paint, as a mathematical value.
pub enum PaintModel {
    Clear { area: Rect },
    Block { area: Rect, title: Seq<char>, border: Style, style: Style },
    Text { area: Rect, lines: Seq<Seq<SpanModel>>, style: Style, wrapping: Wrapping, scroll: u16 },
    List { area: Rect, title: Seq<char>, items: Seq<Seq<SpanModel>>, selected: Option<usize> },
}

impl View for Paint {
    type V = PaintModel;

    open spec fn view(&self) -> PaintModel {
        match self {
            Paint::Clear { area } => PaintModel::Clear { area: *area },
            Paint::Block { area, title, border, style } => PaintModel::Block {
                area: *area,
                title: title@,
                border: *border,
                style: *style,
            },
            Paint::Text { area, lines, style, wrapping, scroll } => PaintModel::Text {
                area: *area,
                lines: lines_of(lines@),
                style: *style,
                wrapping: *wrapping,
                scroll: *scroll,
            },
            Paint::List { area, title, items, selected } => PaintModel::List {
                area: *area,
                title: title@,
                items: lines_of(items@),
                selected: *selected,
            },
        }
    }
}

/// The models of a list of things to paint.
pub open spec fn paints_of(v: Seq<Paint>) -> Seq<PaintModel> {
    v.map_values(|p: Paint| p@)
}

/// A bordered block in a style, with plain borders.
pub open spec fn block(area: Rect, title: Seq<char>, style: Style) -> PaintModel {
    PaintModel::Block { area, title, border: plain(), style }
}

/// Lines of text that are cut off where they are too long.
pub open spec fn text(area: Rect, lines: Seq<Seq<SpanModel>>) -> PaintModel {
    PaintModel::Text { area, lines, style: plain(), wrapping: Wrapping::Cut, scroll: 0 }
}

/// One line in one style over a whole area.
pub open spec fn label(area: Rect, words: Seq<char>, style: Style) -> PaintModel {
    PaintModel::Text {
        area,
        lines: seq![one(words, plain())],
        style,
        wrapping: Wrapping::Cut,
        scroll: 0,
    }
}

/// Lines of text that are broken where they are too long, from an offset on.
pub open spec fn scrolling(area: Rect, lines: Seq<Seq<SpanModel>>, scroll: u16) -> PaintModel {
    PaintModel::Text { area, lines, style: plain(), wrapping: Wrapping::Keep, scroll }
}

impl Paint {
    /// A bordered block in a style, with plain borders.
    pub fn block(area: Rect, title: &str, style: Style) -> (p: Paint)
        ensures
            p@ == block(area, title@, style),
    {
        Paint::Block { area, title: title.to_owned(), border: Style::plain(), style }
    }

    /// Lines of text that are cut off where they are too long.
    pub fn text(area: Rect, lines: Vec<Line>) -> (p: Paint)
        ensures
            p@ == text(area, lines_of(lines@)),
    {
        Paint::Text { area, lines, style: Style::plain(), wrapping: Wrapping::Cut, scroll: 0 }
    }

    /// One line in one style over a whole area.
    pub fn label(area: Rect, words: &str, style: Style) -> (p: Paint)
        ensures
            p@ == label(area, words@, style),
    {
        let mut lines = no_lines();
        put(&mut lines, Line::one(words, Style::plain()));
        assert(lines_of(lines@) =~= seq![one(words@, plain())]);
        Paint::Text { area, lines, style, wrapping: Wrapping::Cut, scroll: 0 }
    }

    /// Lines of text that are broken where they are too long, from an offset on.
    pub fn scrolling(area: Rect, lines: Vec<Line>, scroll: u16) -> (p: Paint)
        ensures
            p@ == scrolling(area, lines_of(lines@), scroll),
    {
        Paint::Text { area, lines, style: Style::plain(), wrapping: Wrapping::Keep, scroll }
    }
}

/// Put one more thing to paint at the end.
pub fn paint(paints: &mut Vec<Paint>, p: Paint)
    ensures
        paints_of(final(paints)@) == paints_of(old(paints)@).push(p@),
{
    let ghost before = paints@;
    paints.push(p);
    assert(paints_of(paints@) =~= paints_of(before).push(p@));
}

/// Nothing to paint.
pub fn nothing() -> (v: Vec<Paint>)
    ensures
        paints_of(v@) == Seq::<PaintModel>::empty(),
{
    let v: Vec<Paint> = Vec::new();
    assert(paints_of(v@) =~= Seq::<PaintModel>::empty());
    v
}

/// Put more things to paint at the end.
pub fn append(paints: &mut Vec<Paint>, more: Vec<Paint>)
    ensures
        paints_of(final(paints)@) == paints_of(old(paints)@) + paints_of(more@),
{
    let ghost before = paints@;
    let ghost m = more@;
    let mut more = more;
    paints.append(&mut more);
    assert(paints_of(paints@) =~= paints_of(before) + paints_of(m));
}

} // verus!
