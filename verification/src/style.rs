use vstd::prelude::*;

use crate::highlight::TokenKind;

verus! {

/// A color of the terminal.
#[derive(Debug, Clone, Copy, PartialEq, Eq, Structural)]
pub enum SpanColor {
    Black,
    Red,
    Green,
    Yellow,
    Magenta,
    Cyan,
    DarkGray,
    Rgb(u8, u8, u8),
}

/// How a span of text looks. Without a color the terminal's own is used.
#[derive(Debug, Clone, Copy, PartialEq, Eq, Structural)]
pub struct SpanStyle {
    pub foreground: Option<SpanColor>,
    pub background: Option<SpanColor>,
    pub bold: bool,
    pub italic: bool,
    pub underlined: bool,
}

/// How a theme wants a piece of text to look.
#[derive(Debug, Clone, Copy, PartialEq, Eq, Structural)]
pub struct SyntaxStyle {
    pub red: u8,
    pub green: u8,
    pub blue: u8,
    pub bold: bool,
    pub italic: bool,
    pub underline: bool,
}

/// A span of text and how it looks.
#[derive(Debug, Clone, PartialEq, Eq)]
pub struct StyledSpan {
    pub text: String,
    pub style: SpanStyle,
}

/// A span as a mathematical value.
pub struct SpanView {
    pub text: Seq<char>,
    pub style: SpanStyle,
}

impl View for StyledSpan {
    type V = SpanView;

    open spec fn view(&self) -> SpanView {
        SpanView { text: self.text@, style: self.style }
    }
}

/// The mathematical values of a row of spans.
pub open spec fn span_views(spans: Seq<StyledSpan>) -> Seq<SpanView> {
    spans.map_values(|span: StyledSpan| span@)
}

/// All the texts of a row of spans, one behind the other.
pub open spec fn joined_spans(spans: Seq<SpanView>) -> Seq<char>
    decreases spans.len(),
{
    if spans.len() == 0 {
        Seq::empty()
    } else {
        spans[0].text + joined_spans(spans.drop_first())
    }
}

/// The look of plain text.
pub open spec fn plain() -> SpanStyle {
    SpanStyle {
        foreground: None,
        background: None,
        bold: false,
        italic: false,
        underlined: false,
    }
}

/// The look of text in a color.
pub open spec fn in_color(color: SpanColor) -> SpanStyle {
    SpanStyle { foreground: Some(color), ..plain() }
}

/// The look of the keys in the status line.
pub open spec fn key_look() -> SpanStyle {
    SpanStyle { bold: true, ..in_color(SpanColor::Yellow) }
}

/// The look of what a search has found.
pub open spec fn search_look() -> SpanStyle {
    SpanStyle {
        background: Some(SpanColor::Yellow),
        bold: true,
        ..in_color(SpanColor::Black)
    }
}

/// The look of a token.
pub open spec fn token_look(kind: TokenKind) -> SpanStyle {
    match kind {
        TokenKind::String => in_color(SpanColor::Green),
        TokenKind::Number => in_color(SpanColor::Cyan),
        TokenKind::Boolean | TokenKind::Null => in_color(SpanColor::Magenta),
        TokenKind::Bracket | TokenKind::Colon | TokenKind::Comma => in_color(SpanColor::DarkGray),
        TokenKind::Other => in_color(SpanColor::Red),
        TokenKind::Whitespace => plain(),
    }
}

/// The look that a theme asks for.
pub open spec fn theme_look(style: SyntaxStyle) -> SpanStyle {
    SpanStyle {
        foreground: Some(SpanColor::Rgb(style.red, style.green, style.blue)),
        background: None,
        bold: style.bold,
        italic: style.italic,
        underlined: style.underline,
    }
}

/// The look of plain text.
pub fn plain_style() -> (style: SpanStyle)
    ensures
        style == plain(),
{
    SpanStyle {
        foreground: None,
        background: None,
        bold: false,
        italic: false,
        underlined: false,
    }
}

/// The look of text in a color.
pub fn color_style(color: SpanColor) -> (style: SpanStyle)
    ensures
        style == in_color(color),
{
    SpanStyle {
        foreground: Some(color),
        background: None,
        bold: false,
        italic: false,
        underlined: false,
    }
}

/// The look of the keys in the status line.
pub fn key_style() -> (style: SpanStyle)
    ensures
        style == key_look(),
{
    SpanStyle {
        foreground: Some(SpanColor::Yellow),
        background: None,
        bold: true,
        italic: false,
        underlined: false,
    }
}

/// The look of what a search has found.
pub fn search_style() -> (style: SpanStyle)
    ensures
        style == search_look(),
{
    SpanStyle {
        foreground: Some(SpanColor::Black),
        background: Some(SpanColor::Yellow),
        bold: true,
        italic: false,
        underlined: false,
    }
}

/// The look of a token.
pub fn style_for(kind: TokenKind) -> (style: SpanStyle)
    ensures
        style == token_look(kind),
{
    match kind {
        TokenKind::String => color_style(SpanColor::Green),
        TokenKind::Number => color_style(SpanColor::Cyan),
        TokenKind::Boolean | TokenKind::Null => color_style(SpanColor::Magenta),
        TokenKind::Bracket | TokenKind::Colon | TokenKind::Comma => color_style(
            SpanColor::DarkGray,
        ),
        TokenKind::Other => color_style(SpanColor::Red),
        TokenKind::Whitespace => plain_style(),
    }
}

/// The look that a theme asks for.
pub fn syntect_style(style: SyntaxStyle) -> (look: SpanStyle)
    ensures
        look == theme_look(style),
{
    SpanStyle {
        foreground: Some(SpanColor::Rgb(style.red, style.green, style.blue)),
        background: None,
        bold: style.bold,
        italic: style.italic,
        underlined: style.underline,
    }
}

} // verus!
