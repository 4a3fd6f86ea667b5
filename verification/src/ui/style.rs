//! Styled text.

use vstd::prelude::*;
use vstd::string::*;

verus! {

/// The colours in use.
#[derive(Clone, Copy, Debug, PartialEq, Eq, Structural)]
pub enum Color {
    Yellow,
    Cyan,
    Green,
    Gray,
    DarkGray,
    Red,
}

/// How text looks; without a colour it has the terminal's.
#[derive(Clone, Copy, Debug, PartialEq, Eq)]
pub struct Style {
    pub fg: Option<Color>,
    pub bold: bool,
}

/// Text as it comes.
pub open spec fn plain() -> Style {
    Style { fg: None, bold: false }
}

/// Text in a colour.
pub open spec fn colored(c: Color) -> Style {
    Style { fg: Some(c), bold: false }
}

/// Bold text.
pub open spec fn bold() -> Style {
    Style { fg: None, bold: true }
}

/// Bold text in a colour.
pub open spec fn bold_colored(c: Color) -> Style {
    Style { fg: Some(c), bold: true }
}

impl Style {
    /// Text as it comes.
    pub fn plain() -> (r: Style)
        ensures
            r == plain(),
    {
        Style { fg: None, bold: false }
    }

    /// Text in a colour.
    pub fn colored(c: Color) -> (r: Style)
        ensures
            r == colored(c),
    {
        Style { fg: Some(c), bold: false }
    }

    /// Bold text.
    pub fn bold() -> (r: Style)
        ensures
            r == bold(),
    {
        Style { fg: None, bold: true }
    }

    /// Bold text in a colour.
    pub fn bold_colored(c: Color) -> (r: Style)
        ensures
            r == bold_colored(c),
    {
        Style { fg: Some(c), bold: true }
    }
}

/// Text of one style.
#[derive(Debug)]
pub struct Span {
    pub text: String,
    pub style: Style,
}

/// Text of one style, taken as a sequence.
#[verifier::ext_equal]
pub struct SpanView {
    pub text: Seq<char>,
    pub style: Style,
}

impl View for Span {
    type V = SpanView;

    open spec fn view(&self) -> SpanView {
        SpanView { text: self.text@, style: self.style }
    }
}

/// Text of one style.
pub open spec fn span(text: Seq<char>, style: Style) -> SpanView {
    SpanView { text, style }
}

impl Span {
    /// Text of one style.
    pub fn new(text: &str, style: Style) -> (r: Span)
        ensures
            r@ == span(text@, style),
    {
        Span { text: text.to_owned(), style }
    }
}

/// A line: what stands in it from left to right.
#[derive(Debug)]
pub struct Line {
    pub spans: Vec<Span>,
}

impl View for Line {
    type V = Seq<SpanView>;

    open spec fn view(&self) -> Seq<SpanView> {
        self.spans@.map_values(|s: Span| s@)
    }
}

impl Line {
    /// An empty line.
    pub fn new() -> (r: Line)
        ensures
            r@ == Seq::<SpanView>::empty(),
    {
        let r = Line { spans: Vec::new() };
        proof {
            assert(r@ =~= Seq::<SpanView>::empty());
        }
        r
    }

    /// A line of one style.
    pub fn of(text: &str, style: Style) -> (r: Line)
        ensures
            r@ == seq![span(text@, style)],
    {
        let mut r = Line::new();
        r.push(text, style);
        proof {
            assert(r@ =~= seq![span(text@, style)]);
        }
        r
    }

    /// Appends text.
    pub fn push(&mut self, text: &str, style: Style)
        ensures
            final(self)@ == old(self)@.push(span(text@, style)),
    {
        let ghost before = self@;
        self.spans.push(Span::new(text, style));
        proof {
            assert(self@ =~= before.push(span(text@, style)));
        }
    }
}

/// Lines from top to bottom.
#[derive(Debug)]
pub struct Lines {
    pub lines: Vec<Line>,
}

impl View for Lines {
    type V = Seq<Seq<SpanView>>;

    open spec fn view(&self) -> Seq<Seq<SpanView>> {
        self.lines@.map_values(|l: Line| l@)
    }
}

impl Lines {
    /// No lines.
    pub fn new() -> (r: Lines)
        ensures
            r@ == Seq::<Seq<SpanView>>::empty(),
    {
        let r = Lines { lines: Vec::new() };
        proof {
            assert(r@ =~= Seq::<Seq<SpanView>>::empty());
        }
        r
    }

    /// Appends a line.
    pub fn push(&mut self, line: Line)
        ensures
            final(self)@ == old(self)@.push(line@),
    {
        let ghost before = self@;
        self.lines.push(line);
        proof {
            assert(self@ =~= before.push(line@));
        }
    }

    /// Appends a line of one style.
    pub fn push_text(&mut self, text: &str, style: Style)
        ensures
            final(self)@ == old(self)@.push(seq![span(text@, style)]),
    {
        self.push(Line::of(text, style));
    }

    /// Appends an empty line.
    pub fn push_blank(&mut self)
        ensures
            final(self)@ == old(self)@.push(Seq::empty()),
    {
        self.push(Line::new());
    }

    /// How many lines there are.
    pub fn count(&self) -> (r: usize)
        ensures
            r == self@.len(),
    {
        self.lines.len()
    }
}

// ─── Laws ──────────────────────────────────────────────────────────────

/// Text has the colour that it is given and no other, and is bold exactly if it is
/// asked to be.
pub proof fn law_style_is_as_asked(c: Color, text: Seq<char>, style: Style)
    ensures
        plain().fg is None && !plain().bold,
        colored(c).fg == Some(c) && !colored(c).bold,
        bold().fg is None && bold().bold,
        bold_colored(c).fg == Some(c) && bold_colored(c).bold,
        span(text, style).text == text && span(text, style).style == style,
{
}

} // verus!
